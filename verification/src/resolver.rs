//! Binding resolution: compose a scheme's bindings with the remap layers
//! a tag group asked for, in the group's order.
//!
//! External transform functions come after every remap, whatever the
//! descriptor interleaves: the resolved map is produced first, and the
//! caller then drives each named transform over its values through
//! `Scheme::function_def`, `BindFunction::render_command` and
//! `BindingMap::set_value_at`.

use vstd::prelude::*;
use crate::MainError;
use crate::bindings::BindingMap;
use crate::bindings::remapped;
use crate::configs::ConfigError;
use crate::doc::Context;
use crate::doc::GetErrKind;
use crate::doc::TableGetError;
use crate::configs::BindFunction;
use crate::registry::Scheme;
use crate::registry::SchemeRegistry;
use crate::bindings::map_model;
use crate::doc::DocVal;
use crate::doc::table_lookup;
use crate::registry::assoc_find;
use crate::registry::merge_table;
use crate::registry::v_ok;
use crate::registry::last_index_of;
use crate::registry::names_of;
use crate::tagfile::SchemeSpec;

verus! {

/// Every value of `base` rewritten through one remap layer; keys and
/// order unchanged.
pub open spec fn remap_all(
    layer: Seq<(Seq<char>, Seq<char>)>,
    base: Seq<(Seq<char>, Seq<char>)>,
) -> Seq<(Seq<char>, Seq<char>)> {
    Seq::new(base.len(), |i: int| (base[i].0, remapped(layer, base[i].1)))
}

/// The pairs after applying the layers named by `names[i..]`, in order,
/// to `base`; `None` when some name resolves to no layer.
pub open spec fn resolved_from(
    base: Seq<(Seq<char>, Seq<char>)>,
    rs: Seq<(String, BindingMap)>,
    names: Seq<Seq<char>>,
    i: int,
) -> Option<Seq<(Seq<char>, Seq<char>)>>
    decreases names.len() - i,
{
    if i < 0 || i >= names.len() {
        Some(base)
    } else {
        match assoc_find(rs, names[i]) {
            None => None,
            Some(layer) => resolved_from(remap_all(layer.pairs(), base), rs, names, i + 1),
        }
    }
}

/// Resolve a scheme reference to its final binding map, remap layers
/// applied in the caller's order.
///
/// An unknown scheme name is a reference error naming the scheme and the
/// referencing context; an unknown remap layer name is a reference error
/// naming the layer under both the referencing and the scheme's own
/// context. Transform functions are not applied here: they always come
/// after every remap.
pub fn get_bindings(
    registry: &mut SchemeRegistry,
    scheme_spec: &SchemeSpec,
    spec_context: &Context,
) -> (r: Result<BindingMap, MainError>)
    requires
        old(registry).wf(),
    ensures
        final(registry).wf(),
        final(registry).docs_view() == old(registry).docs_view(),
        forall|j: int|
            0 <= j < old(registry).states_view().len() && (#[trigger] old(
                registry,
            ).states_view()[j]) is Some ==> final(registry).states_view()[j] == old(
                registry,
            ).states_view()[j],
        !old(registry).has_scheme(scheme_spec.scheme@) ==> (r matches Err(
            MainError::ConfigError(ConfigError::SchemeExpected(c, n)),
        ) && n@ == scheme_spec.scheme@ && c.root_view() == spec_context.root_view()
            && c.keys_view() == spec_context.keys_view().push("scheme"@)),
        r matches Ok(m) ==> ({
            let idx = last_index_of(names_of(old(registry).docs_view()), scheme_spec.scheme@);
            &&& 0 <= idx < final(registry).states_view().len()
            &&& final(registry).states_view()[idx] matches Some(s) && (resolved_from(
                s.bindings.pairs(),
                s.remaps@,
                scheme_spec.remaps.deep_view(),
                0,
            ) == Some(m.pairs()) && (forall|i: int|
                0 <= i < scheme_spec.functions.deep_view().len() ==> assoc_find(
                    s.functions@,
                    #[trigger] scheme_spec.functions.deep_view()[i],
                ) is Some))
            &&& m.wf()
        }),
        ({
            let idx = last_index_of(names_of(old(registry).docs_view()), scheme_spec.scheme@);
            &&& 0 <= idx
            &&& old(registry).states_view()[idx] matches Some(s) && ((forall|i: int|
                0 <= i < scheme_spec.remaps.deep_view().len() ==> assoc_find(
                    s.remaps@,
                    #[trigger] scheme_spec.remaps.deep_view()[i],
                ) is Some) && (forall|i: int|
                0 <= i < scheme_spec.functions.deep_view().len() ==> assoc_find(
                    s.functions@,
                    #[trigger] scheme_spec.functions.deep_view()[i],
                ) is Some))
        }) ==> r is Ok,
        ({
            let idx = last_index_of(names_of(old(registry).docs_view()), scheme_spec.scheme@);
            r is Ok && 0 <= idx && old(registry).states_view()[idx] is None
        }) ==> ({
            let idx = last_index_of(names_of(old(registry).docs_view()), scheme_spec.scheme@);
            final(registry).states_view()[idx] matches Some(s) && (table_lookup(
                old(registry).docs_view()[idx].table@,
                "bindings"@,
            ) matches Some(DocVal::Table(bt)) && merge_table(
                old(registry).docs_view(),
                bt,
                0,
                Map::<Seq<char>, Seq<char>>::empty(),
                Seq::<(Seq<char>, Seq<char>)>::empty(),
                old(registry).spec_fuel(),
            ) == Some(map_model(s.bindings)))
        }),
        r matches Err(MainError::ConfigError(ConfigError::TableRefExpect(c, e))) ==> (({
            let idx = last_index_of(names_of(old(registry).docs_view()), scheme_spec.scheme@);
            0 <= idx && (old(registry).states_view()[idx] is Some || v_ok(
                old(registry).docs_view(),
                idx,
                Seq::<(Seq<char>, Seq<char>)>::empty(),
                old(registry).spec_fuel(),
            ))
        }) ==> ((exists|i: int|
            #![trigger scheme_spec.remaps.deep_view()[i]]
            0 <= i < scheme_spec.remaps.deep_view().len() && ({
                let rn = scheme_spec.remaps.deep_view()[i];
                &&& c.root_view() == spec_context.root_view()
                &&& c.keys_view() =~= spec_context.keys_view().push("remaps"@).push(rn)
                &&& e.kind is NoKey
                &&& e.context.keys_view() =~= seq!["remaps"@, rn]
            })) || (exists|i: int|
            #![trigger scheme_spec.functions.deep_view()[i]]
            0 <= i < scheme_spec.functions.deep_view().len() && ({
                let fname = scheme_spec.functions.deep_view()[i];
                &&& c.root_view() == spec_context.root_view()
                &&& c.keys_view() =~= spec_context.keys_view().push("functions"@).push(fname)
                &&& e.kind is NoKey
                &&& e.context.keys_view() =~= seq!["functions"@, fname]
            })))),
{
    match registry.get(&scheme_spec.scheme) {
        Ok(Some(_)) => {},
        Ok(None) => {
            return Err(
                MainError::ConfigError(
                    ConfigError::SchemeExpected(
                        spec_context.with(&String::from_str("scheme")),
                        scheme_spec.scheme.clone(),
                    ),
                ),
            );
        },
        Err(e) => {
            return Err(MainError::ConfigError(e));
        },
    }
    let idx = match registry.index_of(&scheme_spec.scheme) {
        Some(i) => i,
        None => {
            proof {
                assert(false);
            }
            return Err(MainError::Generic(String::new()));
        },
    };
    let scheme: &Scheme = registry.scheme_at(idx);
    proof {
        if old(registry).states_view()[idx as int] is None {
            assert(table_lookup(
                old(registry).docs_view()[idx as int].table@,
                "bindings"@,
            ) matches Some(DocVal::Table(bt)) && merge_table(
                old(registry).docs_view(),
                bt,
                0,
                Map::<Seq<char>, Seq<char>>::empty(),
                Seq::<(Seq<char>, Seq<char>)>::empty(),
                old(registry).spec_fuel(),
            ) == Some(map_model(scheme.bindings)));
        }
    }
    let ghost fresh_merge_ok = old(registry).states_view()[idx as int] is None ==> (
    table_lookup(old(registry).docs_view()[idx as int].table@, "bindings"@) matches Some(
        DocVal::Table(bt),
    ) && merge_table(
        old(registry).docs_view(),
        bt,
        0,
        Map::<Seq<char>, Seq<char>>::empty(),
        Seq::<(Seq<char>, Seq<char>)>::empty(),
        old(registry).spec_fuel(),
    ) == Some(map_model(scheme.bindings)));
    proof {
        assert(fresh_merge_ok);
    }
    let mut map = scheme.bindings.clone();
    let ghost names = scheme_spec.remaps.deep_view();
    let n = scheme_spec.remaps.len();
    let mut i: usize = 0;
    while i < n
        invariant
            n == scheme_spec.remaps@.len(),
            names == scheme_spec.remaps.deep_view(),
            names.len() == n,
            i <= n,
            map.wf(),
            registry.wf(),
            old(registry).wf(),
            registry.docs_view() == old(registry).docs_view(),
            forall|j: int|
                0 <= j < old(registry).states_view().len() && (#[trigger] old(
                    registry,
                ).states_view()[j]) is Some ==> registry.states_view()[j] == old(
                    registry,
                ).states_view()[j],
            old(registry).has_scheme(scheme_spec.scheme@),
            idx as int == last_index_of(
                names_of(old(registry).docs_view()),
                scheme_spec.scheme@,
            ),
            idx < registry.states_view().len(),
            registry.states_view()[idx as int] == Some(*scheme),
            fresh_merge_ok,
            resolved_from(scheme.bindings.pairs(), scheme.remaps@, names, 0) == resolved_from(
                map.pairs(),
                scheme.remaps@,
                names,
                i as int,
            ),
        decreases n - i,
    {
        let rname = &scheme_spec.remaps[i];
        proof {
            assert(names[i as int] == rname@);
        }
        let layer = match scheme.remap_layer(rname) {
            Some(l) => l,
            None => {
                proof {
                    let oidx = last_index_of(
                        names_of(old(registry).docs_view()),
                        scheme_spec.scheme@,
                    );
                    crate::registry::lemma_last_index_bounds(
                        names_of(old(registry).docs_view()),
                        scheme_spec.scheme@,
                    );
                    if 0 <= oidx && old(registry).states_view()[oidx] is Some {
                        assert(oidx < old(registry).states_view().len());
                        assert(registry.states_view()[oidx] == old(
                            registry,
                        ).states_view()[oidx]);
                        assert(old(registry).states_view()[oidx]->0 == *scheme);
                        assert(names[i as int] == rname@);
                    }
                }
                let category = String::from_str("remaps");
                return Err(
                    MainError::ConfigError(
                        ConfigError::TableRefExpect(
                            spec_context.with(&category).with(rname),
                            TableGetError {
                                kind: GetErrKind::NoKey,
                                context: Context::from_root(
                                    scheme.root_context.clone(),
                                ).with(&category).with(rname),
                            },
                        ),
                    ),
                );
            },
        };
        let ghost pre = map.pairs();
        map.apply_remap(layer);
        proof {
            assert(map.pairs() =~= remap_all(layer.pairs(), pre));
        }
        i = i + 1;
    }
    let fn_count = scheme_spec.functions.len();
    let mut fi: usize = 0;
    while fi < fn_count
        invariant
            fn_count == scheme_spec.functions@.len(),
            fi <= fn_count,
            registry.wf(),
            old(registry).wf(),
            registry.docs_view() == old(registry).docs_view(),
            forall|j: int|
                0 <= j < old(registry).states_view().len() && (#[trigger] old(
                    registry,
                ).states_view()[j]) is Some ==> registry.states_view()[j] == old(
                    registry,
                ).states_view()[j],
            old(registry).has_scheme(scheme_spec.scheme@),
            idx as int == last_index_of(
                names_of(old(registry).docs_view()),
                scheme_spec.scheme@,
            ),
            idx < registry.states_view().len(),
            registry.states_view()[idx as int] == Some(*scheme),
            fresh_merge_ok,
            forall|p: int|
                0 <= p < fi ==> assoc_find(
                    scheme.functions@,
                    #[trigger] scheme_spec.functions.deep_view()[p],
                ) is Some,
        decreases fn_count - fi,
    {
        let fname = &scheme_spec.functions[fi];
        proof {
            assert(scheme_spec.functions.deep_view()[fi as int] == fname@);
        }
        match lookup_function(scheme, fname, spec_context) {
            Ok(_) => {},
            Err(e) => {
                proof {
                    let oidx = last_index_of(
                        names_of(old(registry).docs_view()),
                        scheme_spec.scheme@,
                    );
                    crate::registry::lemma_last_index_bounds(
                        names_of(old(registry).docs_view()),
                        scheme_spec.scheme@,
                    );
                    if 0 <= oidx && old(registry).states_view()[oidx] is Some {
                        assert(oidx < old(registry).states_view().len());
                        assert(registry.states_view()[oidx] == old(
                            registry,
                        ).states_view()[oidx]);
                        assert(old(registry).states_view()[oidx]->0 == *scheme);
                    }
                }
                return Err(MainError::ConfigError(e));
            },
        }
        fi = fi + 1;
    }
    Ok(map)
}

/// The transform definition a tag group asked for, or the reference
/// error naming it: the missing name under `functions`, with both the
/// referencing context and the scheme's own context.
pub fn lookup_function<'a>(scheme: &'a Scheme, name: &String, spec_context: &Context) -> (r:
    Result<&'a BindFunction, ConfigError>)
    ensures
        match r {
            Ok(f) => assoc_find(scheme.functions@, name@) == Some(*f),
            Err(e) => {
                &&& assoc_find(scheme.functions@, name@) is None
                &&& e matches ConfigError::TableRefExpect(c, t) && c.root_view()
                    == spec_context.root_view() && c.keys_view() =~= spec_context.keys_view().push(
                    "functions"@,
                ).push(name@) && t.kind is NoKey && t.context.root_view()
                    == scheme.root_context@ && t.context.keys_view() =~= seq![
                    "functions"@,
                    name@,
                ]
            },
        },
{
    match scheme.function_def(name) {
        Some(f) => Ok(f),
        None => {
            let category = String::from_str("functions");
            Err(
                ConfigError::TableRefExpect(
                    spec_context.with(&category).with(name),
                    TableGetError {
                        kind: GetErrKind::NoKey,
                        context: Context::from_root(scheme.root_context.clone()).with(
                            &category,
                        ).with(name),
                    },
                ),
            )
        },
    }
}

} // verus!

//! The substitution engine.
//!
//! Simultaneous multi-pattern replacement with leftmost, longest-match
//! semantics: in a single left-to-right pass, at each position the longest
//! key that matches there is replaced by its value, and everything else is
//! copied verbatim. The scan itself is done by the `aho-corasick` crate;
//! what it must return is pinned down by the `replaced` specification
//! below, and everything around the scan is verified against it.

use vstd::prelude::*;
use vstd::string::StrSliceExecFns;

verus! {

broadcast use vstd::std_specs::vec::axiom_vec_index_decreases, vstd::seq::axiom_seq_index_decreases, vstd::std_specs::vec::axiom_vec_decreases_to_view;

/// Pattern `pat` occurs in `text` at position `i`. Empty patterns never
/// count as matching.
pub open spec fn match_at(text: Seq<char>, i: int, pat: Seq<char>) -> bool {
    &&& pat.len() > 0
    &&& 0 <= i
    &&& i + pat.len() <= text.len()
    &&& text.subrange(i, i + pat.len()) == pat
}

/// The length of the longest pattern among `pats[k..]` matching `text` at
/// position `i`; zero when none matches.
pub open spec fn longest_len_from(pats: Seq<Seq<char>>, text: Seq<char>, i: int, k: int) -> nat
    decreases pats.len() - k,
{
    if k < 0 || k >= pats.len() {
        0
    } else {
        let rest = longest_len_from(pats, text, i, k + 1);
        if match_at(text, i, pats[k]) && pats[k].len() > rest {
            pats[k].len()
        } else {
            rest
        }
    }
}

/// The length of the longest pattern matching `text` at position `i`.
pub open spec fn longest_len_at(pats: Seq<Seq<char>>, text: Seq<char>, i: int) -> nat {
    longest_len_from(pats, text, i, 0)
}

pub proof fn lemma_longest_len_from_bound(pats: Seq<Seq<char>>, text: Seq<char>, i: int, k: int)
    requires
        0 <= i <= text.len(),
    ensures
        longest_len_from(pats, text, i, k) <= text.len() - i,
        longest_len_from(pats, text, i, k) > 0 ==> exists|j: int|
            0 <= j < pats.len() && match_at(text, i, pats[j]) && pats[j].len()
                == longest_len_from(pats, text, i, k),
    decreases pats.len() - k,
{
    if 0 <= k < pats.len() {
        lemma_longest_len_from_bound(pats, text, i, k + 1);
    }
}

#[via_fn]
proof fn replaced_decreases(pats: Seq<Seq<char>>, vals: Seq<Seq<char>>, text: Seq<char>) {
    if text.len() > 0 {
        lemma_longest_len_from_bound(pats, text, 0, 0);
    }
}

/// Simultaneous leftmost, longest-match replacement: scanning `text` left
/// to right, wherever the longest matching pattern is `pats[j]`, that
/// occurrence becomes `vals[j]` and the scan resumes after it; characters
/// where nothing matches pass through verbatim.
pub open spec fn replaced(pats: Seq<Seq<char>>, vals: Seq<Seq<char>>, text: Seq<char>) -> Seq<
    char,
>
    decreases text.len(),
        via replaced_decreases
{
    if text.len() == 0 {
        Seq::empty()
    } else {
        let l = longest_len_at(pats, text, 0);
        if l > 0 {
            let j = choose|j: int|
                0 <= j < pats.len() && match_at(text, 0, pats[j]) && pats[j].len() == l;
            vals[j] + replaced(pats, vals, text.skip(l as int))
        } else {
            seq![text[0]] + replaced(pats, vals, text.skip(1))
        }
    }
}

/// No two patterns are the same.
pub open spec fn distinct_seqs(pats: Seq<Seq<char>>) -> bool {
    forall|i: int, j: int| 0 <= i < j < pats.len() ==> pats[i] != pats[j]
}

/// No pattern is empty.
pub open spec fn nonempty_seqs(pats: Seq<Seq<char>>) -> bool {
    forall|i: int| 0 <= i < pats.len() ==> pats[i].len() > 0
}

/// With distinct patterns, two patterns of the same length cannot both
/// match at one position: the longest match there is unique, so the
/// replacement of a text is fully determined by the pattern set and its
/// values.
pub proof fn lemma_longest_match_unique(
    pats: Seq<Seq<char>>,
    text: Seq<char>,
    i: int,
    j1: int,
    j2: int,
)
    requires
        distinct_seqs(pats),
        0 <= j1 < pats.len(),
        0 <= j2 < pats.len(),
        match_at(text, i, pats[j1]),
        match_at(text, i, pats[j2]),
        pats[j1].len() == pats[j2].len(),
    ensures
        j1 == j2,
{
    if j1 != j2 {
        assert(pats[j1] == text.subrange(i, i + pats[j1].len()));
        assert(pats[j2] == text.subrange(i, i + pats[j2].len()));
    }
}

/// If no pattern occurs anywhere in `text`, replacement leaves `text`
/// unchanged. This is what makes a replacement pass idempotent whenever
/// its own output contains no key.
pub proof fn lemma_replaced_no_match(pats: Seq<Seq<char>>, vals: Seq<Seq<char>>, text: Seq<char>)
    requires
        forall|j: int, i: int|
            0 <= j < pats.len() ==> !match_at(text, i, pats[j]),
    ensures
        replaced(pats, vals, text) == text,
    decreases text.len(),
{
    if text.len() > 0 {
        lemma_longest_none(pats, text, 0, 0);
        assert forall|j: int, i: int|
            0 <= j < pats.len() implies !match_at(text.skip(1), i, pats[j]) by {
            if match_at(text.skip(1), i, pats[j]) {
                assert(text.skip(1).subrange(i, i + pats[j].len()) =~= text.subrange(
                    i + 1,
                    i + 1 + pats[j].len(),
                ));
                assert(match_at(text, i + 1, pats[j]));
            }
        }
        lemma_replaced_no_match(pats, vals, text.skip(1));
        assert(replaced(pats, vals, text) =~= text);
    } else {
        assert(replaced(pats, vals, text) =~= text);
    }
}

proof fn lemma_longest_none(pats: Seq<Seq<char>>, text: Seq<char>, i: int, k: int)
    requires
        forall|j: int| 0 <= j < pats.len() ==> !match_at(text, i, pats[j]),
    ensures
        longest_len_from(pats, text, i, k) == 0,
    decreases pats.len() - k,
{
    if 0 <= k < pats.len() {
        lemma_longest_none(pats, text, i, k + 1);
    }
}

/// The set of patterns that a matching automaton was built from, in order.
pub uninterp spec fn automaton_patterns(ac: aho_corasick::AhoCorasick) -> Seq<Seq<char>>;

/// The automaton was configured for leftmost, longest-match semantics.
pub uninterp spec fn automaton_leftmost_longest(ac: aho_corasick::AhoCorasick) -> bool;

/// Whether an automaton over exactly these patterns can be built at all:
/// the build outcome depends on the pattern set alone (its failure is a
/// size limit, the same on every run).
pub uninterp spec fn automaton_buildable(pats: Seq<Seq<char>>) -> bool;

#[verifier::external_type_specification]
#[verifier::external_body]
pub struct ExAhoCorasick(aho_corasick::AhoCorasick);

/// Relies on `aho_corasick::AhoCorasick::builder` with
/// `MatchKind::LeftmostLongest`: `build` returns an automaton over exactly
/// the given patterns, in the given order, or a size-limit error that
/// depends on the pattern set alone.
#[verifier::external_body]
fn build_automaton(keys: &Vec<String>) -> (r: Result<aho_corasick::AhoCorasick, ()>)
    ensures
        r is Ok <==> automaton_buildable(keys.deep_view()),
        r matches Ok(ac) ==> automaton_patterns(ac) == keys.deep_view()
            && automaton_leftmost_longest(ac),
{
    aho_corasick::AhoCorasick::builder()
        .match_kind(aho_corasick::MatchKind::LeftmostLongest)
        .build(keys.iter())
        .map_err(|_| ())
}

/// Relies on `aho_corasick::AhoCorasick::replace_all`: with a
/// leftmost-longest automaton it replaces every non-overlapping, leftmost,
/// longest match of pattern `j` by `vals[j]` and copies the rest verbatim,
/// which is exactly `replaced`. Distinct non-empty patterns make the
/// longest match at a position unique; `vals` as long as the pattern set
/// rules out the documented panic; an automaton from `build_automaton`
/// keeps the default unanchored start, which rules out the documented
/// error.
#[verifier::external_body]
fn automaton_replace_all(ac: &aho_corasick::AhoCorasick, text: &str, vals: &Vec<String>) -> (r:
    String)
    requires
        automaton_leftmost_longest(*ac),
        distinct_seqs(automaton_patterns(*ac)),
        nonempty_seqs(automaton_patterns(*ac)),
        vals.deep_view().len() == automaton_patterns(*ac).len(),
    ensures
        r@ == replaced(automaton_patterns(*ac), vals.deep_view(), text@),
{
    ac.replace_all(text, vals.as_slice())
}

/// Why a matcher could not be built from a key set.
#[derive(Debug)]
pub enum EngineError {
    /// The key set is empty.
    EmptyKeySet,
    /// Some key is the empty string.
    EmptyKey,
    /// Two keys are the same string.
    DuplicateKey,
    /// The matching automaton itself could not be built (a size limit
    /// of the pattern set).
    Build,
}

/// A compiled simultaneous matcher: keys, their replacement values, and
/// the automaton built from the keys.
pub struct Matcher {
    ac: aho_corasick::AhoCorasick,
    keys: Vec<String>,
    vals: Vec<String>,
}

impl Matcher {
    pub closed spec fn keys_view(&self) -> Seq<Seq<char>> {
        self.keys.deep_view()
    }

    pub closed spec fn vals_view(&self) -> Seq<Seq<char>> {
        self.vals.deep_view()
    }

    pub closed spec fn wf(&self) -> bool {
        &&& automaton_patterns(self.ac) == self.keys_view()
        &&& automaton_leftmost_longest(self.ac)
        &&& distinct_seqs(self.keys_view())
        &&& nonempty_seqs(self.keys_view())
        &&& self.vals_view().len() == self.keys_view().len()
    }

    /// Compile a matcher for the given keys and values.
    ///
    /// An empty key set, an empty key, or a duplicated key is a
    /// configuration error; the automaton build itself can also fail.
    /// The empty-string key is rejected here because the replacement
    /// semantics never match an empty pattern, while the automaton
    /// would match it at every position.
    pub fn new(keys: Vec<String>, vals: Vec<String>) -> (r: Result<Matcher, EngineError>)
        requires
            keys.deep_view().len() == vals.deep_view().len(),
        ensures
            match r {
                Ok(m) => {
                    &&& m.wf()
                    &&& m.keys_view() == keys.deep_view()
                    &&& m.vals_view() == vals.deep_view()
                    &&& keys.deep_view().len() > 0
                    &&& nonempty_seqs(keys.deep_view())
                    &&& distinct_seqs(keys.deep_view())
                },
                Err(e) => {
                    &&& e is EmptyKeySet <==> keys.deep_view().len() == 0
                    &&& e is EmptyKey <==> keys.deep_view().len() > 0 && !nonempty_seqs(
                        keys.deep_view(),
                    )
                    &&& e is DuplicateKey ==> !distinct_seqs(keys.deep_view())
                    &&& (keys.deep_view().len() > 0 && nonempty_seqs(keys.deep_view())
                        && !distinct_seqs(keys.deep_view())) ==> e is DuplicateKey
                    &&& e is Build <==> keys.deep_view().len() > 0 && nonempty_seqs(
                        keys.deep_view(),
                    ) && distinct_seqs(keys.deep_view()) && !automaton_buildable(
                        keys.deep_view(),
                    )
                },
            },
            keys.deep_view().len() == 0 ==> r is Err,
            (keys.deep_view().len() > 0 && !nonempty_seqs(keys.deep_view())) ==> r is Err,
            (keys.deep_view().len() > 0 && nonempty_seqs(keys.deep_view()) && distinct_seqs(
                keys.deep_view(),
            ) && automaton_buildable(keys.deep_view())) ==> r is Ok,
    {
        let n = keys.len();
        proof {
            assert(keys.deep_view().len() == keys@.len());
        }
        if n == 0 {
            return Err(EngineError::EmptyKeySet);
        }
        let mut i: usize = 0;
        while i < n
            invariant
                n == keys@.len(),
                i <= n,
                keys.deep_view().len() == n,
                forall|j: int| 0 <= j < i ==> keys.deep_view()[j].len() > 0,
            decreases n - i,
        {
            if keys[i].as_str().is_empty() {
                proof {
                    assert(keys.deep_view()[i as int] == keys@[i as int]@);
                }
                return Err(EngineError::EmptyKey);
            }
            proof {
                assert(keys.deep_view()[i as int] == keys@[i as int]@);
            }
            i = i + 1;
        }
        let mut a: usize = 0;
        while a < n
            invariant
                n == keys@.len(),
                a <= n,
                keys.deep_view().len() == n,
                nonempty_seqs(keys.deep_view()),
                forall|p: int, q: int| 0 <= p < q < n && p < a ==> keys.deep_view()[p]
                    != keys.deep_view()[q],
            decreases n - a,
        {
            let mut b: usize = a + 1;
            while b < n
                invariant
                    n == keys@.len(),
                    nonempty_seqs(keys.deep_view()),
                    a < b || b == a + 1,
                    a < n,
                    a + 1 <= b <= n,
                    keys.deep_view().len() == n,
                    forall|q: int| a < q < b ==> keys.deep_view()[a as int]
                        != keys.deep_view()[q],
                decreases n - b,
            {
                if keys[a] == keys[b] {
                    proof {
                        assert(keys.deep_view()[a as int] == keys@[a as int]@);
                        assert(keys.deep_view()[b as int] == keys@[b as int]@);
                    }
                    return Err(EngineError::DuplicateKey);
                }
                proof {
                    assert(keys.deep_view()[a as int] == keys@[a as int]@);
                    assert(keys.deep_view()[b as int] == keys@[b as int]@);
                }
                b = b + 1;
            }
            a = a + 1;
        }
        match build_automaton(&keys) {
            Ok(ac) => Ok(Matcher { ac, keys, vals }),
            Err(()) => Err(EngineError::Build),
        }
    }

    /// The number of keys.
    pub fn key_count(&self) -> (r: usize)
        ensures
            r == self.keys_view().len(),
    {
        proof {
            assert(self.keys.deep_view().len() == self.keys@.len());
        }
        self.keys.len()
    }

    /// Replace every leftmost, longest key occurrence in `text` by the
    /// key's value.
    pub fn replace_all(&self, text: &str) -> (r: String)
        requires
            self.wf(),
        ensures
            r@ == replaced(self.keys_view(), self.vals_view(), text@),
    {
        automaton_replace_all(&self.ac, text, &self.vals)
    }
}

/// The characters of `s`, one by one.
pub fn to_chars(s: &str) -> (r: Vec<char>)
    ensures
        r@ == s@,
{
    let n = s.unicode_len();
    let mut out: Vec<char> = Vec::new();
    let mut i: usize = 0;
    while i < n
        invariant
            n == s@.len(),
            i <= n,
            out@ =~= s@.subrange(0, i as int),
        decreases n - i,
    {
        out.push(s.get_char(i));
        i = i + 1;
    }
    proof {
        assert(out@ =~= s@);
    }
    out
}

/// Relies on `String`'s `FromIterator` over `char`: collecting characters
/// builds the string of exactly those characters.
#[verifier::external_body]
pub(crate) fn chars_to_string(v: &Vec<char>) -> (r: String)
    ensures
        r@ == v@,
{
    v.iter().collect()
}

/// `s` with every occurrence of the wildcard character replaced by `val`
/// and every other character kept.
pub open spec fn wc_replaced(s: Seq<char>, wc: char, val: Seq<char>) -> Seq<char>
    decreases s.len(),
{
    if s.len() == 0 {
        Seq::empty()
    } else {
        (if s[0] == wc {
            val
        } else {
            seq![s[0]]
        }) + wc_replaced(s.drop_first(), wc, val)
    }
}

proof fn lemma_wc_snoc(s: Seq<char>, c: char, wc: char, val: Seq<char>)
    ensures
        wc_replaced(s.push(c), wc, val) == wc_replaced(s, wc, val) + (if c == wc {
            val
        } else {
            seq![c]
        }),
    decreases s.len(),
{
    if s.len() == 0 {
        assert(s.push(c).len() == 1);
        assert(s.push(c)[0] == c);
        assert(s.push(c).drop_first() =~= Seq::<char>::empty());
        assert(wc_replaced(Seq::<char>::empty(), wc, val) =~= Seq::<char>::empty());
        assert(wc_replaced(s, wc, val) =~= Seq::<char>::empty());
        assert(wc_replaced(s.push(c), wc, val) =~= (if c == wc {
            val
        } else {
            seq![c]
        }));
        assert(wc_replaced(s, wc, val) + (if c == wc {
            val
        } else {
            seq![c]
        }) =~= (if c == wc {
            val
        } else {
            seq![c]
        }));
    } else {
        assert(s.push(c).drop_first() =~= s.drop_first().push(c));
        assert(s.push(c)[0] == s[0]);
        lemma_wc_snoc(s.drop_first(), c, wc, val);
        assert(wc_replaced(s.push(c), wc, val) =~= wc_replaced(s, wc, val) + (if c == wc {
            val
        } else {
            seq![c]
        }));
    }
}

/// Append the wildcard-replacement of `tc[from..to]` to `out`.
fn append_wc(out: &mut Vec<char>, tc: &Vec<char>, from: usize, to: usize, wc: char, vc: &Vec<
    char,
>)
    requires
        from <= to <= tc@.len(),
    ensures
        final(out)@ == old(out)@ + wc_replaced(tc@.subrange(from as int, to as int), wc, vc@),
{
    let mut m = from;
    proof {
        assert(tc@.subrange(from as int, from as int) =~= Seq::<char>::empty());
        assert(out@ =~= out@ + wc_replaced(tc@.subrange(from as int, from as int), wc, vc@));
    }
    while m < to
        invariant
            from <= m <= to <= tc@.len(),
            out@ == old(out)@ + wc_replaced(tc@.subrange(from as int, m as int), wc, vc@),
        decreases to - m,
    {
        let c = tc[m];
        let ghost pre = tc@.subrange(from as int, m as int);
        if c == wc {
            let mut k: usize = 0;
            let n = vc.len();
            while k < n
                invariant
                    n == vc@.len(),
                    k <= n,
                    out@ == old(out)@ + wc_replaced(
                        tc@.subrange(from as int, m as int),
                        wc,
                        vc@,
                    ) + vc@.subrange(0, k as int),
                decreases n - k,
            {
                out.push(vc[k]);
                proof {
                    assert(vc@.subrange(0, k as int).push(vc@[k as int]) =~= vc@.subrange(
                        0,
                        k + 1,
                    ));
                    assert(out@ =~= old(out)@ + wc_replaced(
                        tc@.subrange(from as int, m as int),
                        wc,
                        vc@,
                    ) + vc@.subrange(0, k + 1));
                }
                k = k + 1;
            }
            proof {
                assert(vc@.subrange(0, vc@.len() as int) =~= vc@);
            }
        } else {
            out.push(c);
        }
        proof {
            assert(tc@.subrange(from as int, m + 1) =~= pre.push(tc@[m as int]));
            lemma_wc_snoc(pre, tc@[m as int], wc, vc@);
            assert(out@ =~= old(out)@ + wc_replaced(tc@.subrange(from as int, m + 1), wc, vc@));
        }
        m = m + 1;
    }
}

/// The position of the first `esc` in `s`, or `s.len()` when there is
/// none.
pub open spec fn first_esc(s: Seq<char>, esc: char) -> int
    decreases s.len(),
{
    if s.len() == 0 {
        0
    } else if s[0] == esc {
        0
    } else {
        1 + first_esc(s.drop_first(), esc)
    }
}

pub proof fn lemma_first_esc_bounds(s: Seq<char>, esc: char)
    ensures
        0 <= first_esc(s, esc) <= s.len(),
        forall|m: int| 0 <= m < first_esc(s, esc) ==> s[m] != esc,
        first_esc(s, esc) < s.len() ==> s[first_esc(s, esc)] == esc,
    decreases s.len(),
{
    if s.len() > 0 && s[0] != esc {
        lemma_first_esc_bounds(s.drop_first(), esc);
        assert forall|m: int| 0 <= m < first_esc(s, esc) implies s[m] != esc by {
            if m > 0 {
                assert(s[m] == s.drop_first()[m - 1]);
            }
        }
    }
}

/// `first_esc` is the scan outcome: no escape before `d`, and `d` is an
/// escape or the end.
pub proof fn lemma_first_esc_at(s: Seq<char>, esc: char, d: int)
    requires
        0 <= d <= s.len(),
        forall|m: int| 0 <= m < d ==> s[m] != esc,
        d < s.len() ==> s[d] == esc,
    ensures
        first_esc(s, esc) == d,
    decreases d,
{
    if d > 0 {
        lemma_first_esc_at(s.drop_first(), esc, d - 1);
    }
}

/// One chunk that follows an escape, substituted: its first character —
/// the one the escape shields — is kept verbatim and the remainder goes
/// through wildcard replacement. An empty chunk contributes nothing
/// (though `chunks_ok` rules it out).
pub open spec fn chunk_sub(chunk: Seq<char>, wc: char, val: Seq<char>) -> Seq<char> {
    if chunk.len() == 0 {
        Seq::empty()
    } else {
        seq![chunk[0]] + wc_replaced(chunk.drop_first(), wc, val)
    }
}

#[via_fn]
proof fn esc_sub_tail_decreases(text: Seq<char>, esc: char, wc: char, val: Seq<char>) {
    lemma_first_esc_bounds(text, esc);
}

/// The part of an escape-aware substitution that follows the first
/// escape: each remaining chunk shields its first character (the one
/// right after its escape) and wildcard-replaces the rest; the escape
/// characters themselves vanish.
pub open spec fn esc_sub_tail(text: Seq<char>, esc: char, wc: char, val: Seq<char>) -> Seq<char>
    decreases text.len(),
        via esc_sub_tail_decreases
{
    let k = first_esc(text, esc);
    if k >= text.len() {
        chunk_sub(text, wc, val)
    } else {
        chunk_sub(text.subrange(0, k), wc, val) + esc_sub_tail(text.skip(k + 1), esc, wc, val)
    }
}

/// Escape-aware substitution: wildcards mark substitutable positions and
/// the escape character shields exactly the next character. The opening
/// chunk, before any escape, is wildcard-replaced in full; each later
/// chunk keeps the character its escape shields and wildcard-replaces
/// the rest; the escape characters themselves vanish.
pub open spec fn esc_sub(text: Seq<char>, esc: char, wc: char, val: Seq<char>) -> Seq<char> {
    let k = first_esc(text, esc);
    if k >= text.len() {
        wc_replaced(text, wc, val)
    } else {
        wc_replaced(text.subrange(0, k), wc, val) + esc_sub_tail(text.skip(k + 1), esc, wc, val)
    }
}

#[via_fn]
proof fn chunks_ok_decreases(text: Seq<char>, esc: char) {
    lemma_first_esc_bounds(text, esc);
}

/// Every chunk of the split is non-empty: the text does not start or end
/// with an escape, has no two escapes in a row, and is not empty. These
/// are the templates on which escape-aware substitution is defined.
pub open spec fn chunks_ok(text: Seq<char>, esc: char) -> bool
    decreases text.len(),
        via chunks_ok_decreases
{
    let k = first_esc(text, esc);
    &&& k > 0
    &&& k < text.len() ==> chunks_ok(text.skip(k + 1), esc)
}

/// Append the substitution of the post-escape chunks `tc[i..]` to
/// `out`: `i` points at the character right after an escape.
fn esc_tail_chunks(tc: &Vec<char>, i: usize, esc: char, wc: char, vc: &Vec<char>, out: &mut Vec<
    char,
>)
    requires
        i <= tc@.len(),
        chunks_ok(tc@.skip(i as int), esc),
    ensures
        final(out)@ == old(out)@ + esc_sub_tail(tc@.skip(i as int), esc, wc, vc@),
    decreases tc@.len() - i,
{
    let ghost rest = tc@.skip(i as int);
    let n = tc.len();
    let mut j: usize = i;
    while j < n && tc[j] != esc
        invariant
            i <= j <= n,
            n == tc@.len(),
            forall|m: int| i <= m < j ==> tc@[m] != esc,
        decreases n - j,
    {
        j = j + 1;
    }
    proof {
        assert forall|m: int| 0 <= m < j - i implies rest[m] != esc by {
            assert(rest[m] == tc@[i + m]);
        }
        if (j as int) < n {
            assert(rest[j - i] == tc@[j as int]);
        }
        lemma_first_esc_at(rest, esc, j - i);
        assert(first_esc(rest, esc) == j - i);
        assert(j > i);
    }
    out.push(tc[i]);
    append_wc(out, tc, i + 1, j, wc, vc);
    proof {
        assert(rest.subrange(0, j - i).drop_first() =~= tc@.subrange(i + 1, j as int));
        assert(rest.subrange(0, j - i)[0] == tc@[i as int]);
        if j == n {
            assert(rest.subrange(0, j - i) =~= rest);
            assert(out@ =~= old(out)@ + esc_sub_tail(rest, esc, wc, vc@));
        }
    }
    if j < n {
        proof {
            assert(rest.skip((j - i) + 1) =~= tc@.skip(j + 1));
        }
        esc_tail_chunks(tc, j + 1, esc, wc, vc, out);
        proof {
            assert(out@ =~= old(out)@ + esc_sub_tail(rest, esc, wc, vc@));
        }
    }
}

/// Whether `text` is a valid template for escape-aware substitution with
/// escape character `escape`.
pub fn template_ok(text: &str, escape: char) -> (r: bool)
    ensures
        r == chunks_ok(text@, escape),
{
    let tc = to_chars(text);
    proof {
        assert(tc@.skip(0) =~= text@);
    }
    chunks_ok_exec(&tc, 0, escape)
}

fn chunks_ok_exec(tc: &Vec<char>, i: usize, esc: char) -> (r: bool)
    requires
        i <= tc@.len(),
    ensures
        r == chunks_ok(tc@.skip(i as int), esc),
    decreases tc@.len() - i,
{
    let ghost rest = tc@.skip(i as int);
    let n = tc.len();
    let mut j: usize = i;
    while j < n && tc[j] != esc
        invariant
            i <= j <= n,
            n == tc@.len(),
            forall|m: int| i <= m < j ==> tc@[m] != esc,
        decreases n - j,
    {
        j = j + 1;
    }
    proof {
        assert forall|m: int| 0 <= m < j - i implies rest[m] != esc by {
            assert(rest[m] == tc@[i + m]);
        }
        if (j as int) < n {
            assert(rest[j - i] == tc@[j as int]);
        }
        lemma_first_esc_at(rest, esc, j - i);
    }
    if j == i {
        return false;
    }
    if j == n {
        return true;
    }
    proof {
        assert(rest.skip((j - i) + 1) =~= tc@.skip(j + 1));
    }
    chunks_ok_exec(tc, j + 1, esc)
}

/// Escape-aware substitution over a template: every `wildcard` becomes
/// `value`, except that each `escape` shields the single character after
/// it (and itself vanishes). This derives a per-file template-source
/// name from a configured naming format, and a transform command from
/// its command template.
pub fn escaped_manip(text: &str, escape: char, wildcard: char, value: &str) -> (r: String)
    requires
        chunks_ok(text@, escape),
    ensures
        r@ == esc_sub(text@, escape, wildcard, value@),
{
    let tc = to_chars(text);
    let vc = to_chars(value);
    let mut out: Vec<char> = Vec::new();
    let n = tc.len();
    let mut j: usize = 0;
    while j < n && tc[j] != escape
        invariant
            j <= n,
            n == tc@.len(),
            forall|m: int| 0 <= m < j ==> tc@[m] != escape,
        decreases n - j,
    {
        j = j + 1;
    }
    proof {
        if (j as int) < n {
            assert(tc@[j as int] == escape);
        }
        lemma_first_esc_at(tc@, escape, j as int);
    }
    append_wc(&mut out, &tc, 0, j, wildcard, &vc);
    proof {
        assert(tc@.subrange(0, j as int) =~= tc@.subrange(0, j as int));
        if j == n {
            assert(tc@.subrange(0, j as int) =~= tc@);
        }
    }
    if j < n {
        esc_tail_chunks(&tc, j + 1, escape, wildcard, &vc, &mut out);
    }
    chars_to_string(&out)
}

} // verus!



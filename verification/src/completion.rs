//! The directory-path autocompletion engine: candidate suggestions and the
//! next completion for a partially typed relative path, computed from the
//! typed input and a directory listing supplied by the caller.

use crate::paths::{base_of, file_of, join_spec, last_slash, lemma_last_slash, parent_of};
use crate::paths::{find_last_slash, join_path};
use crate::text::{lex_le, lex_leq, starts_with_spec};
use crate::text::{lemma_lex_le_total, lemma_lex_le_trans, lemma_lex_total_ordering};
use crate::text::{str_lex_le, str_starts_with};
use vstd::prelude::*;
use vstd::relations::sorted_by;
use vstd::seq_lib::{lemma_multiset_commutative, lemma_sorted_unique};
use vstd::string::{StrSliceExecFns, StringExecFns};

verus! {

/// The completion engine, rooted at a fixed home directory. It holds no
/// other state: every request is answered afresh from the typed input and
/// the directory listing the caller passes in.
#[derive(Clone)]
pub struct DirCompleter {
    home: String,
}

/// The suggestions for the typed input, given the candidate entry names of
/// the target directory in order: every entry whose name starts with the
/// typed trailing segment, prefixed with the typed text up to the last '/'.
pub open spec fn suggestions_spec(input: Seq<char>, entries: Seq<Seq<char>>) -> Seq<Seq<char>>
    decreases entries.len(),
{
    if entries.len() == 0 {
        Seq::empty()
    } else {
        let rest = suggestions_spec(input, entries.drop_last());
        if starts_with_spec(entries.last(), file_of(input)) {
            rest.push(base_of(input) + entries.last())
        } else {
            rest
        }
    }
}

/// The longest common prefix of two character sequences.
pub open spec fn lcp2(a: Seq<char>, b: Seq<char>) -> Seq<char>
    decreases a.len(),
{
    if a.len() == 0 || b.len() == 0 {
        Seq::empty()
    } else if a[0] != b[0] {
        Seq::empty()
    } else {
        seq![a[0]] + lcp2(a.drop_first(), b.drop_first())
    }
}

/// The longest common prefix of all items: empty when there are none, the
/// item itself when there is exactly one.
pub open spec fn lcp_of(items: Seq<Seq<char>>) -> Seq<char>
    decreases items.len(),
{
    if items.len() == 0 {
        Seq::empty()
    } else if items.len() == 1 {
        items[0]
    } else {
        lcp2(lcp_of(items.drop_last()), items.last())
    }
}

/// The completion offered for the current input: the highlighted suggestion
/// descended into; otherwise, when exactly one suggestion matches, that
/// suggestion descended into; otherwise the common prefix of all
/// suggestions, when it extends the input; otherwise nothing.
pub open spec fn completion_spec(
    input: Seq<char>,
    highlighted: Option<Seq<char>>,
    entries: Seq<Seq<char>>,
) -> Option<Seq<char>> {
    match highlighted {
        Some(h) => Some(h.push('/')),
        None => {
            let sugg = suggestions_spec(input, entries);
            if sugg.len() == 0 {
                None
            } else if sugg.len() == 1 {
                Some(sugg[0].push('/'))
            } else {
                let l = lcp_of(sugg);
                if l.len() > input.len() {
                    Some(l)
                } else {
                    None
                }
            }
        },
    }
}

proof fn lemma_lcp2_prefix(a: Seq<char>, b: Seq<char>)
    ensures
        starts_with_spec(a, lcp2(a, b)),
        starts_with_spec(b, lcp2(a, b)),
    decreases a.len(),
{
    if a.len() > 0 && b.len() > 0 && a[0] == b[0] {
        lemma_lcp2_prefix(a.drop_first(), b.drop_first());
        let rest = lcp2(a.drop_first(), b.drop_first());
        assert(a.subrange(0, rest.len() as int + 1) =~= seq![a[0]] + a.drop_first().subrange(
            0,
            rest.len() as int,
        ));
        assert(b.subrange(0, rest.len() as int + 1) =~= seq![b[0]] + b.drop_first().subrange(
            0,
            rest.len() as int,
        ));
        assert(seq![a[0]] + rest =~= a.subrange(0, rest.len() as int + 1));
        assert(seq![b[0]] + rest =~= b.subrange(0, rest.len() as int + 1));
    } else {
        assert(a.subrange(0, 0) =~= lcp2(a, b));
        assert(b.subrange(0, 0) =~= lcp2(a, b));
    }
}

/// The common-prefix law: what `lcp_of` computes is indeed a prefix shared
/// by every item.
pub proof fn lemma_lcp_is_common_prefix(items: Seq<Seq<char>>)
    ensures
        forall|i: int|
            0 <= i < items.len() ==> starts_with_spec(#[trigger] items[i], lcp_of(items)),
    decreases items.len(),
{
    if items.len() == 1 {
        assert(items[0].subrange(0, items[0].len() as int) =~= items[0]);
    } else if items.len() > 1 {
        lemma_lcp_is_common_prefix(items.drop_last());
        let prev = lcp_of(items.drop_last());
        let l = lcp2(prev, items.last());
        lemma_lcp2_prefix(prev, items.last());
        assert forall|i: int| 0 <= i < items.len() implies starts_with_spec(
            #[trigger] items[i],
            lcp_of(items),
        ) by {
            if i < items.len() - 1 {
                assert(items.drop_last()[i] == items[i]);
                assert(starts_with_spec(items[i], prev));
                lemma_starts_with_chain(items[i], prev, l);
            } else {
                assert(items[i] == items.last());
            }
        }
    }
}

proof fn lemma_lcp2_chars(a: Seq<char>, b: Seq<char>, j: int)
    requires
        0 <= j <= a.len(),
        j <= b.len(),
        forall|k: int| 0 <= k < j ==> a[k] == b[k],
        j == a.len() || j == b.len() || a[j] != b[j],
    ensures
        lcp2(a, b) == a.subrange(0, j),
    decreases j,
{
    if j == 0 {
        assert(a.subrange(0, 0) =~= Seq::<char>::empty());
    } else {
        assert(a[0] == b[0]);
        assert(forall|k: int|
            0 <= k < j - 1 ==> #[trigger] a.drop_first()[k] == b.drop_first()[k]);
        lemma_lcp2_chars(a.drop_first(), b.drop_first(), j - 1);
        assert(seq![a[0]] + a.drop_first().subrange(0, j - 1) =~= a.subrange(0, j));
    }
}

fn lcp2_str(a: &str, b: &str) -> (r: String)
    ensures
        r@ == lcp2(a@, b@),
{
    let n = a.unicode_len();
    let m = b.unicode_len();
    let mut j: usize = 0;
    while j < n && j < m && a.get_char(j) == b.get_char(j)
        invariant
            j <= n,
            j <= m,
            n == a@.len(),
            m == b@.len(),
            forall|k: int| 0 <= k < j ==> a@[k] == b@[k],
        decreases n - j,
    {
        j = j + 1;
    }
    proof {
        lemma_lcp2_chars(a@, b@, j as int);
    }
    a.substring_char(0, j).to_owned()
}

/// Computes the longest common prefix of the given items, compared
/// character by character so a multi-byte character is never split; empty
/// when there are no items.
pub fn longest_common_prefix(items: &Vec<String>) -> (r: String)
    ensures
        r@ == lcp_of(items.deep_view()),
{
    if items.len() == 0 {
        assert(items.deep_view().len() == 0);
        return String::new();
    }
    let mut acc = items[0].clone();
    let mut i: usize = 1;
    proof {
        assert(items.deep_view().subrange(0, 1).len() == 1);
        assert(items.deep_view().subrange(0, 1)[0] == items.deep_view()[0]);
    }
    while i < items.len()
        invariant
            1 <= i <= items.len(),
            items.deep_view().len() == items.len(),
            acc@ == lcp_of(items.deep_view().subrange(0, i as int)),
        decreases items.len() - i,
    {
        let next = lcp2_str(acc.as_str(), items[i].as_str());
        proof {
            let evs = items.deep_view();
            assert(evs.subrange(0, i + 1).drop_last() =~= evs.subrange(0, i as int));
            assert(evs.subrange(0, i + 1).last() == evs[i as int]);
            assert(evs.subrange(0, i + 1).len() >= 2);
        }
        acc = next;
        i = i + 1;
    }
    proof {
        assert(items.deep_view().subrange(0, items.len() as int) =~= items.deep_view());
    }
    acc
}

impl DirCompleter {
    /// The home directory the engine was created with.
    pub closed spec fn home_view(&self) -> Seq<char> {
        self.home@
    }

    /// Creates an engine rooted at the given home directory.
    pub fn new(home: String) -> (r: Self)
        ensures
            r.home_view() == home@,
    {
        DirCompleter { home }
    }

    /// The directory whose entries should be listed for the typed input:
    /// the typed parent path joined under the home directory.
    pub fn target_dir(&self, input: &str) -> (r: String)
        ensures
            r@ == join_spec(self.home_view(), parent_of(input@)),
    {
        match find_last_slash(input) {
            None => {
                proof {
                    reveal_strlit("");
                    assert(""@ =~= parent_of(input@));
                }
                join_path(self.home.as_str(), "")
            },
            Some(i) => {
                proof {
                    lemma_last_slash(input@);
                }
                join_path(self.home.as_str(), input.substring_char(0, i))
            },
        }
    }

    /// Lists the suggestions for the typed input, given the candidate entry
    /// names of the target directory in order: the entries whose names start
    /// with the typed trailing segment, each prefixed with the typed text up
    /// to the last '/'.
    pub fn get_suggestions(&self, input: &str, entries: &Vec<String>) -> (r: Vec<String>)
        ensures
            r.deep_view() == suggestions_spec(input@, entries.deep_view()),
    {
        let n = input.unicode_len();
        let ls = find_last_slash(input);
        proof {
            lemma_last_slash(input@);
        }
        let base: &str = match ls {
            None => "",
            Some(i) => input.substring_char(0, i + 1),
        };
        let file: &str = match ls {
            None => input,
            Some(i) => input.substring_char(i + 1, n),
        };
        proof {
            if ls is None {
                reveal_strlit("");
                assert(""@ =~= base_of(input@));
                assert(file_of(input@) =~= input@);
            }
        }
        let mut out: Vec<String> = Vec::new();
        let mut idx: usize = 0;
        proof {
            assert(out.deep_view() =~= suggestions_spec(
                input@,
                entries.deep_view().subrange(0, 0),
            ));
        }
        while idx < entries.len()
            invariant
                idx <= entries.len(),
                entries.deep_view().len() == entries.len(),
                base@ == base_of(input@),
                file@ == file_of(input@),
                out.deep_view() == suggestions_spec(
                    input@,
                    entries.deep_view().subrange(0, idx as int),
                ),
            decreases entries.len() - idx,
        {
            let ghost out_before = out.deep_view();
            let name = &entries[idx];
            if str_starts_with(name.as_str(), file) {
                out.push(String::from_str(base).concat(name.as_str()));
            }
            proof {
                let evs = entries.deep_view();
                assert(evs.subrange(0, idx + 1).drop_last() =~= evs.subrange(0, idx as int));
                assert(evs.subrange(0, idx + 1).last() == evs[idx as int]);
                if starts_with_spec(evs[idx as int], file_of(input@)) {
                    assert(out.deep_view() =~= out_before.push(base_of(input@) + evs[idx as int]));
                }
            }
            idx = idx + 1;
        }
        proof {
            assert(entries.deep_view().subrange(0, entries.len() as int) =~= entries.deep_view());
        }
        out
    }

    /// Computes the completion for the typed input, given the candidate
    /// entry names of the target directory and the currently highlighted
    /// suggestion, if any.
    pub fn get_completion(
        &self,
        input: &str,
        highlighted: Option<String>,
        entries: &Vec<String>,
    ) -> (r: Option<String>)
        ensures
            r.deep_view() == completion_spec(input@, highlighted.deep_view(), entries.deep_view()),
    {
        match highlighted {
            Some(h) => {
                let ghost hv = h@;
                let c = h.concat("/");
                proof {
                    reveal_strlit("/");
                    assert(c@ =~= hv.push('/'));
                }
                Some(c)
            },
            None => {
                let sugg = self.get_suggestions(input, entries);
                proof {
                    assert(sugg.deep_view().len() == sugg@.len());
                }
                if sugg.len() == 0 {
                    None
                } else if sugg.len() == 1 {
                    let ghost sv = sugg.deep_view()[0];
                    let c = sugg[0].clone().concat("/");
                    proof {
                        reveal_strlit("/");
                        assert(c@ =~= sv.push('/'));
                    }
                    Some(c)
                } else {
                    let l = longest_common_prefix(&sugg);
                    let llen = l.unicode_len();
                    let ilen = input.unicode_len();
                    if llen > ilen {
                        Some(l)
                    } else {
                        None
                    }
                }
            },
        }
    }
}

/// An entry name the listing keeps: one not hidden behind a leading dot.
pub open spec fn visible(name: Seq<char>) -> bool {
    name.len() == 0 || name[0] != '.'
}

/// The names of a raw directory listing with hidden entries dropped, order
/// preserved.
pub open spec fn visible_entries(names: Seq<Seq<char>>) -> Seq<Seq<char>>
    decreases names.len(),
{
    if names.len() == 0 {
        Seq::empty()
    } else {
        let rest = visible_entries(names.drop_last());
        if visible(names.last()) {
            rest.push(names.last())
        } else {
            rest
        }
    }
}

fn insert_sorted(out: &mut Vec<String>, x: String)
    requires
        sorted_by(old(out).deep_view(), lex_leq()),
    ensures
        sorted_by(final(out).deep_view(), lex_leq()),
        final(out).deep_view().to_multiset() == old(out).deep_view().to_multiset().insert(x@),
{
    let ghost old_dv = out.deep_view();
    let mut j: usize = 0;
    while j < out.len() && str_lex_le(out[j].as_str(), x.as_str())
        invariant
            j <= out.len(),
            *out == *old(out),
            forall|k: int| 0 <= k < j ==> lex_le(old(out).deep_view()[k], x@),
        decreases out.len() - j,
    {
        j = j + 1;
    }
    proof {
        if j < out.len() {
            lemma_lex_le_total(old_dv[j as int], x@);
            assert(lex_le(x@, old_dv[j as int]));
        }
    }
    out.insert(j, x);
    proof {
        let new_dv = out.deep_view();
        assert(new_dv =~= old_dv.insert(j as int, x@));
        old_dv.insert_ensures(j as int, x@);
        // the insertion point keeps the order
        assert forall|p: int, q: int| 0 <= p < q < new_dv.len() implies #[trigger] (lex_leq())(
            new_dv[p],
            new_dv[q],
        ) by {
            if q < j {
                assert(new_dv[p] == old_dv[p] && new_dv[q] == old_dv[q]);
                assert((lex_leq())(old_dv[p], old_dv[q]));
            } else if p > j {
                assert(new_dv[p] == old_dv[p - 1] && new_dv[q] == old_dv[q - 1]);
                assert((lex_leq())(old_dv[p - 1], old_dv[q - 1]));
            } else if p < j && q == j {
                assert(new_dv[p] == old_dv[p] && new_dv[q] == x@);
                assert(lex_le(old_dv[p], x@));
            } else if p < j && q > j {
                assert(new_dv[p] == old_dv[p] && new_dv[q] == old_dv[q - 1]);
                assert((lex_leq())(old_dv[p], old_dv[q - 1]));
            } else if p == j && q > j {
                assert(new_dv[p] == x@ && new_dv[q] == old_dv[q - 1]);
                assert(lex_le(x@, old_dv[j as int]));
                if q - 1 > j {
                    assert((lex_leq())(old_dv[j as int], old_dv[q - 1]));
                    lemma_lex_le_trans(x@, old_dv[j as int], old_dv[q - 1]);
                }
            }
        }
        // the inserted element joins the contents, nothing else changes
        broadcast use vstd::seq_lib::group_to_multiset_ensures;
        broadcast use vstd::multiset::group_multiset_axioms;

        let front = old_dv.subrange(0, j as int);
        let back = old_dv.subrange(j as int, old_dv.len() as int);
        assert(old_dv =~= front + back);
        assert(new_dv =~= front.push(x@) + back);
        lemma_multiset_commutative(front, back);
        lemma_multiset_commutative(front.push(x@), back);
        assert(front.push(x@).to_multiset() =~= front.to_multiset().insert(x@));
        assert(new_dv.to_multiset() =~= old_dv.to_multiset().insert(x@));
    }
}

/// Prepares a raw directory listing for completion: drops hidden names
/// (those starting with '.') and sorts the rest in ascending lexicographic
/// order. The result holds exactly the visible names, each as often as the
/// listing held it.
pub fn prepare_entries(names: &Vec<String>) -> (r: Vec<String>)
    ensures
        sorted_by(r.deep_view(), lex_leq()),
        r.deep_view().to_multiset() == visible_entries(names.deep_view()).to_multiset(),
        r.deep_view() == visible_entries(names.deep_view()).sort_by(lex_leq()),
{
    let mut out: Vec<String> = Vec::new();
    let mut i: usize = 0;
    proof {
        broadcast use vstd::seq_lib::group_to_multiset_ensures;

        assert(out.deep_view() =~= Seq::<Seq<char>>::empty());
        assert(names.deep_view().subrange(0, 0) =~= Seq::<Seq<char>>::empty());
    }
    while i < names.len()
        invariant
            i <= names.len(),
            names.deep_view().len() == names.len(),
            sorted_by(out.deep_view(), lex_leq()),
            out.deep_view().to_multiset() == visible_entries(
                names.deep_view().subrange(0, i as int),
            ).to_multiset(),
        decreases names.len() - i,
    {
        let ghost out_before = out.deep_view();
        let name = &names[i];
        if name.as_str().is_empty() || name.as_str().get_char(0) != '.' {
            insert_sorted(&mut out, name.clone());
        }
        proof {
            broadcast use vstd::seq_lib::group_to_multiset_ensures;
            broadcast use vstd::multiset::group_multiset_axioms;

            let nvs = names.deep_view();
            assert(nvs.subrange(0, i + 1).drop_last() =~= nvs.subrange(0, i as int));
            assert(nvs.subrange(0, i + 1).last() == nvs[i as int]);
            let prev = visible_entries(nvs.subrange(0, i as int));
            if visible(nvs[i as int]) {
                assert(visible_entries(nvs.subrange(0, i + 1)) == prev.push(nvs[i as int]));
                assert(prev.push(nvs[i as int]).to_multiset() =~= prev.to_multiset().insert(
                    nvs[i as int],
                ));
            } else {
                assert(visible_entries(nvs.subrange(0, i + 1)) == prev);
            }
        }
        i = i + 1;
    }
    proof {
        assert(names.deep_view().subrange(0, names.len() as int) =~= names.deep_view());
        let target = visible_entries(names.deep_view());
        lemma_lex_total_ordering();
        target.lemma_sort_by_ensures(lex_leq());
        lemma_sorted_unique(out.deep_view(), target.sort_by(lex_leq()), lex_leq());
    }
    out
}

/// Determinism law: the suggestions are a function of the typed input and
/// the directory listing alone, so two computations over the same input
/// and the same filesystem state agree exactly, in content and order.
pub proof fn lemma_suggestions_deterministic(
    input: Seq<char>,
    entries: Seq<Seq<char>>,
    r1: Seq<Seq<char>>,
    r2: Seq<Seq<char>>,
)
    requires
        r1 == suggestions_spec(input, entries),
        r2 == suggestions_spec(input, entries),
    ensures
        r1 == r2,
{
}

proof fn lemma_suggestions_narrow_helper(
    s1: Seq<char>,
    s2: Seq<char>,
    entries: Seq<Seq<char>>,
)
    requires
        base_of(s2) == base_of(s1),
        starts_with_spec(file_of(s2), file_of(s1)),
    ensures
        forall|x: Seq<char>|
            suggestions_spec(s2, entries).contains(x) ==> suggestions_spec(s1, entries).contains(
                x,
            ),
    decreases entries.len(),
{
    if entries.len() > 0 {
        lemma_suggestions_narrow_helper(s1, s2, entries.drop_last());
        let rest1 = suggestions_spec(s1, entries.drop_last());
        let rest2 = suggestions_spec(s2, entries.drop_last());
        let sugg1 = suggestions_spec(s1, entries);
        let sugg2 = suggestions_spec(s2, entries);
        assert forall|x: Seq<char>| sugg2.contains(x) implies sugg1.contains(x) by {
            let i = choose|i: int| 0 <= i < sugg2.len() && sugg2[i] == x;
            if starts_with_spec(entries.last(), file_of(s2)) && i == sugg2.len() - 1 {
                // the freshly pushed suggestion also matches the shorter input
                assert(x == base_of(s2) + entries.last());
                lemma_starts_with_chain(entries.last(), file_of(s2), file_of(s1));
                assert(sugg1 == rest1.push(base_of(s1) + entries.last()));
                assert(sugg1[sugg1.len() - 1] == x);
            } else {
                assert(rest2[i] == x);
                assert(rest2.contains(x));
                assert(rest1.contains(x));
                let k = choose|k: int| 0 <= k < rest1.len() && rest1[k] == x;
                if starts_with_spec(entries.last(), file_of(s1)) {
                    assert(sugg1 == rest1.push(base_of(s1) + entries.last()));
                    assert(sugg1[k] == x);
                } else {
                    assert(sugg1 == rest1);
                }
            }
        }
    }
}

proof fn lemma_starts_with_chain(s: Seq<char>, p: Seq<char>, q: Seq<char>)
    requires
        starts_with_spec(s, p),
        starts_with_spec(p, q),
    ensures
        starts_with_spec(s, q),
{
    assert(s.subrange(0, q.len() as int) =~= q);
}

proof fn lemma_last_slash_extend(s1: Seq<char>, s2: Seq<char>)
    requires
        s1.len() <= s2.len(),
        s2.subrange(0, s1.len() as int) == s1,
        forall|i: int| s1.len() <= i < s2.len() ==> s2[i] != '/',
    ensures
        last_slash(s2) == last_slash(s1),
    decreases s2.len(),
{
    if s2.len() > s1.len() {
        assert(s2[s2.len() - 1] != '/');
        assert(s2.drop_last().subrange(0, s1.len() as int) =~= s2.subrange(0, s1.len() as int));
        lemma_last_slash_extend(s1, s2.drop_last());
    } else {
        assert(s2 =~= s1);
    }
}

/// Narrowing law: extending the typed input without crossing a '/' can only
/// narrow the choice — against the same directory listing, every suggestion
/// for the longer input is among the suggestions for the shorter one.
pub proof fn lemma_suggestions_narrow(s1: Seq<char>, s2: Seq<char>, entries: Seq<Seq<char>>)
    requires
        s1.len() < s2.len(),
        s2.subrange(0, s1.len() as int) == s1,
        forall|i: int| s1.len() <= i < s2.len() ==> s2[i] != '/',
    ensures
        forall|x: Seq<char>|
            suggestions_spec(s2, entries).contains(x) ==> suggestions_spec(s1, entries).contains(
                x,
            ),
{
    lemma_last_slash_extend(s1, s2);
    lemma_last_slash(s1);
    let ls = last_slash(s1);
    assert(base_of(s2) =~= base_of(s1));
    assert(file_of(s1) =~= s2.subrange(ls + 1, s1.len() as int));
    assert(file_of(s2).subrange(0, file_of(s1).len() as int) =~= file_of(s1));
    lemma_suggestions_narrow_helper(s1, s2, entries);
}

} // verus!

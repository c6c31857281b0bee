//! The textual line protocol spoken with the external session tool: parsing
//! its session listing and building the argument vectors handed to it.

use crate::text::{is_wsp, is_wsp_char};
use vstd::prelude::*;
use vstd::string::StrSliceExecFns;

verus! {

/// The input with leading whitespace removed.
pub open spec fn trim_front(s: Seq<char>) -> Seq<char>
    decreases s.len(),
{
    if s.len() > 0 && is_wsp(s[0]) {
        trim_front(s.drop_first())
    } else {
        s
    }
}

/// The input with trailing whitespace removed.
pub open spec fn trim_back(s: Seq<char>) -> Seq<char>
    decreases s.len(),
{
    if s.len() > 0 && is_wsp(s.last()) {
        trim_back(s.drop_last())
    } else {
        s
    }
}

/// The input with whitespace removed at both ends.
pub open spec fn trim_spec(s: Seq<char>) -> Seq<char> {
    trim_back(trim_front(s))
}

pub proof fn lemma_trim_front_skip(s: Seq<char>, k: int)
    requires
        0 <= k <= s.len(),
        forall|i: int| 0 <= i < k ==> is_wsp(s[i]),
        k == s.len() || !is_wsp(s[k]),
    ensures
        trim_front(s) == s.subrange(k, s.len() as int),
    decreases k,
{
    if k == 0 {
        assert(s.subrange(0, s.len() as int) =~= s);
    } else {
        assert(is_wsp(s[0]));
        assert(forall|i: int| 0 <= i < k - 1 ==> is_wsp(#[trigger] s.drop_first()[i]));
        lemma_trim_front_skip(s.drop_first(), k - 1);
        assert(s.drop_first().subrange(k - 1, s.drop_first().len() as int) =~= s.subrange(
            k,
            s.len() as int,
        ));
    }
}

proof fn lemma_trim_back_skip(s: Seq<char>, k: int)
    requires
        0 <= k <= s.len(),
        forall|i: int| k <= i < s.len() ==> is_wsp(s[i]),
        k == 0 || !is_wsp(s[k - 1]),
    ensures
        trim_back(s) == s.subrange(0, k),
    decreases s.len() - k,
{
    if k == s.len() {
        assert(s.subrange(0, k) =~= s);
    } else {
        assert(is_wsp(s.last()));
        assert(forall|i: int| k <= i < s.len() - 1 ==> is_wsp(#[trigger] s.drop_last()[i]));
        lemma_trim_back_skip(s.drop_last(), k);
        assert(s.drop_last().subrange(0, k) =~= s.subrange(0, k));
    }
}

/// The number of characters before the first line feed, or the whole length
/// when there is none.
pub open spec fn line_end(s: Seq<char>) -> int
    decreases s.len(),
{
    if s.len() == 0 {
        0
    } else if s[0] == '\n' {
        0
    } else {
        1 + line_end(s.drop_first())
    }
}

proof fn lemma_line_end(s: Seq<char>)
    ensures
        0 <= line_end(s) <= s.len(),
        forall|i: int| 0 <= i < line_end(s) ==> s[i] != '\n',
        line_end(s) < s.len() ==> s[line_end(s)] == '\n',
    decreases s.len(),
{
    if s.len() > 0 && s[0] != '\n' {
        lemma_line_end(s.drop_first());
        assert forall|i: int| 0 <= i < line_end(s) implies s[i] != '\n' by {
            if i > 0 {
                assert(s[i] == s.drop_first()[i - 1]);
            }
        }
    }
}

proof fn lemma_line_end_unique(s: Seq<char>, k: int)
    requires
        0 <= k <= s.len(),
        forall|i: int| 0 <= i < k ==> s[i] != '\n',
        k < s.len() ==> s[k] == '\n',
    ensures
        line_end(s) == k,
    decreases k,
{
    if s.len() == 0 {
    } else if s[0] == '\n' {
        assert(k == 0);
    } else {
        assert(k >= 1);
        assert(forall|i: int| 0 <= i < k - 1 ==> #[trigger] s.drop_first()[i] != '\n');
        assert(k - 1 < s.drop_first().len() ==> s.drop_first()[k - 1] == '\n');
        lemma_line_end_unique(s.drop_first(), k - 1);
    }
}

/// The session names carried by the tool's listing output: the lines of the
/// text, each trimmed of surrounding whitespace, with lines that are empty
/// after trimming dropped and the order of the rest preserved.
pub open spec fn parse_sessions_spec(s: Seq<char>) -> Seq<Seq<char>>
    decreases s.len(),
    via parse_sessions_spec_dec
{
    if s.len() == 0 {
        Seq::empty()
    } else {
        let e = line_end(s);
        let line = trim_spec(s.subrange(0, e));
        let rest = if e < s.len() {
            parse_sessions_spec(s.subrange(e + 1, s.len() as int))
        } else {
            Seq::<Seq<char>>::empty()
        };
        if line.len() > 0 {
            seq![line] + rest
        } else {
            rest
        }
    }
}

#[via_fn]
proof fn parse_sessions_spec_dec(s: Seq<char>) {
    lemma_line_end(s);
}

/// Splits the tool's listing output into session names: one per line, each
/// trimmed, with lines that are empty after trimming dropped and the
/// remaining order preserved. Duplicate names are passed through untouched.
pub fn parse_sessions(output: &str) -> (r: Vec<String>)
    ensures
        r.deep_view() == parse_sessions_spec(output@),
{
    let n = output.unicode_len();
    let mut r: Vec<String> = Vec::new();
    let mut pos: usize = 0;
    proof {
        assert(r.deep_view() =~= Seq::<Seq<char>>::empty());
        assert(output@.subrange(0, n as int) =~= output@);
        assert(Seq::<Seq<char>>::empty() + parse_sessions_spec(output@) =~= parse_sessions_spec(
            output@,
        ));
    }
    while pos < n
        invariant
            pos <= n,
            n == output@.len(),
            r.deep_view() + parse_sessions_spec(output@.subrange(pos as int, n as int))
                == parse_sessions_spec(output@),
        decreases n - pos,
    {
        let ghost whole = output@;
        let ghost suffix = whole.subrange(pos as int, n as int);
        // find the end of the current line
        let mut e: usize = pos;
        while e < n && output.get_char(e) != '\n'
            invariant
                pos <= e <= n,
                n == output@.len(),
                forall|k: int| pos <= k < e ==> output@[k] != '\n',
            decreases n - e,
        {
            e = e + 1;
        }
        proof {
            assert forall|i: int| 0 <= i < e - pos implies suffix[i] != '\n' by {
                assert(suffix[i] == whole[pos + i]);
            }
            lemma_line_end_unique(suffix, e - pos);
        }
        // trim the line at both ends
        let mut ts: usize = pos;
        while ts < e && is_wsp_char(output.get_char(ts))
            invariant
                pos <= ts <= e <= n,
                n == output@.len(),
                forall|k: int| pos <= k < ts ==> is_wsp(output@[k]),
            decreases e - ts,
        {
            ts = ts + 1;
        }
        let mut te: usize = e;
        while te > ts && is_wsp_char(output.get_char(te - 1))
            invariant
                ts <= te <= e <= n,
                n == output@.len(),
                forall|k: int| te <= k < e ==> is_wsp(output@[k]),
            decreases te,
        {
            te = te - 1;
        }
        proof {
            let line = suffix.subrange(0, e - pos);
            assert(line =~= whole.subrange(pos as int, e as int));
            assert forall|i: int| 0 <= i < ts - pos implies is_wsp(line[i]) by {
                assert(line[i] == whole[pos + i]);
            }
            assert(ts - pos == line.len() || !is_wsp(line[ts - pos]));
            lemma_trim_front_skip(line, ts - pos);
            let mid = whole.subrange(ts as int, e as int);
            assert(line.subrange(ts - pos, line.len() as int) =~= mid);
            assert forall|i: int| te - ts <= i < mid.len() implies is_wsp(mid[i]) by {
                assert(mid[i] == whole[ts + i]);
            }
            assert(te - ts == 0 || !is_wsp(mid[te - ts - 1]));
            lemma_trim_back_skip(mid, te - ts);
            assert(mid.subrange(0, te - ts) =~= whole.subrange(ts as int, te as int));
            assert(trim_spec(line) == whole.subrange(ts as int, te as int));
        }
        if ts < te {
            let piece = output.substring_char(ts, te).to_owned();
            let ghost r_before = r.deep_view();
            r.push(piece);
            proof {
                assert(r.deep_view() =~= r_before.push(whole.subrange(ts as int, te as int)));
            }
        }
        let ghost r_now = r.deep_view();
        let pos_next: usize = if e < n {
            e + 1
        } else {
            n
        };
        proof {
            let suffix_next = whole.subrange(pos_next as int, n as int);
            let line = suffix.subrange(0, e - pos);
            let trimmed = trim_spec(line);
            // unfold the specification one line
            assert(suffix.len() > 0);
            assert(line_end(suffix) == e - pos);
            if e < n {
                assert(suffix.subrange(e - pos + 1, suffix.len() as int) =~= suffix_next);
            } else {
                assert(suffix_next =~= Seq::<char>::empty());
            }
            assert(parse_sessions_spec(suffix) == (if trimmed.len() > 0 {
                seq![trimmed] + parse_sessions_spec(suffix_next)
            } else {
                parse_sessions_spec(suffix_next)
            }));
            if ts < te {
                assert(trimmed.len() > 0);
                assert(r_now + parse_sessions_spec(suffix_next) =~= (r_now.drop_last()
                    + (seq![trimmed] + parse_sessions_spec(suffix_next))));
            } else {
                assert(trimmed.len() == 0);
            }
            assert(r_now + parse_sessions_spec(suffix_next) == parse_sessions_spec(whole));
        }
        pos = pos_next;
    }
    proof {
        assert(output@.subrange(pos as int, n as int) =~= Seq::<char>::empty());
        assert(r.deep_view() + Seq::<Seq<char>>::empty() =~= r.deep_view());
    }
    r
}

/// The argument vector that creates a session of the given name.
pub fn build_create_args(name: &str) -> (r: Vec<String>)
    ensures
        r.deep_view() == seq!["--session"@, name@],
{
    let r = vec!["--session".to_owned(), name.to_owned()];
    proof {
        assert(r.deep_view() =~= seq!["--session"@, name@]);
    }
    r
}

/// The argument vector that attaches to a session of the given name.
pub fn build_attach_args(name: &str) -> (r: Vec<String>)
    ensures
        r.deep_view() == seq!["attach"@, name@],
{
    let r = vec!["attach".to_owned(), name.to_owned()];
    proof {
        assert(r.deep_view() =~= seq!["attach"@, name@]);
    }
    r
}

/// The argument vector that force-deletes a session of the given name.
pub fn build_delete_args(name: &str) -> (r: Vec<String>)
    ensures
        r.deep_view() == seq!["delete-session"@, "-f"@, name@],
{
    let r = vec!["delete-session".to_owned(), "-f".to_owned(), name.to_owned()];
    proof {
        assert(r.deep_view() =~= seq!["delete-session"@, "-f"@, name@]);
    }
    r
}

} // verus!

//! Relative-path text helpers: locating the last separator, splitting typed
//! input around it, and joining a relative path under a home directory.

use vstd::prelude::*;
use vstd::string::{StrSliceExecFns, StringExecFns};

verus! {

/// The index of the last '/' in `s`, or -1 when there is none.
pub open spec fn last_slash(s: Seq<char>) -> int
    decreases s.len(),
{
    if s.len() == 0 {
        -1
    } else if s[s.len() - 1] == '/' {
        s.len() - 1
    } else {
        last_slash(s.drop_last())
    }
}

/// What the last-slash index means: it is in range, it points at a '/',
/// and nothing after it is a '/'.
pub proof fn lemma_last_slash(s: Seq<char>)
    ensures
        -1 <= last_slash(s) < s.len(),
        last_slash(s) >= 0 ==> s[last_slash(s)] == '/',
        forall|i: int| last_slash(s) < i < s.len() ==> s[i] != '/',
    decreases s.len(),
{
    if s.len() > 0 && s[s.len() - 1] != '/' {
        lemma_last_slash(s.drop_last());
        if last_slash(s) >= 0 {
            assert(s[last_slash(s)] == s.drop_last()[last_slash(s)]);
        }
        assert forall|i: int| last_slash(s) < i < s.len() implies s[i] != '/' by {
            if i < s.len() - 1 {
                assert(s[i] == s.drop_last()[i]);
            }
        }
    }
}

proof fn lemma_last_slash_unique(s: Seq<char>, k: int)
    requires
        -1 <= k < s.len(),
        k >= 0 ==> s[k] == '/',
        forall|i: int| k < i < s.len() ==> s[i] != '/',
    ensures
        last_slash(s) == k,
    decreases s.len(),
{
    if s.len() == 0 {
    } else if s[s.len() - 1] == '/' {
        assert(k == s.len() - 1);
    } else {
        assert(k < s.len() - 1);
        assert(k >= 0 ==> s.drop_last()[k] == s[k]);
        assert(forall|i: int| k < i < s.len() - 1 ==> #[trigger] s.drop_last()[i] == s[i]);
        lemma_last_slash_unique(s.drop_last(), k);
    }
}

/// Everything before the last '/', or empty when there is none.
pub open spec fn parent_of(s: Seq<char>) -> Seq<char> {
    if last_slash(s) < 0 {
        Seq::empty()
    } else {
        s.subrange(0, last_slash(s))
    }
}

/// The typed text up to and including its last '/': empty when there is
/// none. This is what suggestions prepend to each candidate name.
pub open spec fn base_of(s: Seq<char>) -> Seq<char> {
    s.subrange(0, last_slash(s) + 1)
}

/// The segment after the last '/': the whole of `s` when there is none.
pub open spec fn file_of(s: Seq<char>) -> Seq<char> {
    s.subrange(last_slash(s) + 1, s.len() as int)
}

/// `path` appended to `home` behind a separator; an empty `path` leaves
/// `home` unchanged.
pub open spec fn join_spec(home: Seq<char>, path: Seq<char>) -> Seq<char> {
    if path.len() == 0 {
        home
    } else {
        home + seq!['/'] + path
    }
}

/// The input with every trailing '/' removed.
pub open spec fn strip_trailing_slashes(s: Seq<char>) -> Seq<char>
    decreases s.len(),
{
    if s.len() > 0 && s[s.len() - 1] == '/' {
        strip_trailing_slashes(s.drop_last())
    } else {
        s
    }
}

proof fn lemma_strip_trailing_slashes(s: Seq<char>, k: int)
    requires
        0 <= k <= s.len(),
        forall|i: int| k <= i < s.len() ==> s[i] == '/',
        k == 0 || s[k - 1] != '/',
    ensures
        strip_trailing_slashes(s) == s.subrange(0, k),
    decreases s.len() - k,
{
    if k == s.len() {
        assert(s.subrange(0, k) =~= s);
    } else {
        assert(s[s.len() - 1] == '/');
        assert(forall|i: int| k <= i < s.len() - 1 ==> #[trigger] s.drop_last()[i] == s[i]);
        lemma_strip_trailing_slashes(s.drop_last(), k);
        assert(s.drop_last().subrange(0, k) =~= s.subrange(0, k));
    }
}

/// Returns the character index of the last '/' in `s`, if any.
pub fn find_last_slash(s: &str) -> (r: Option<usize>)
    ensures
        match r {
            Some(i) => i as int == last_slash(s@),
            None => last_slash(s@) == -1,
        },
{
    let n = s.unicode_len();
    let mut i: usize = n;
    while i > 0
        invariant
            i <= n,
            n == s@.len(),
            forall|k: int| i <= k < n ==> s@[k] != '/',
        decreases i,
    {
        if s.get_char(i - 1) == '/' {
            proof {
                lemma_last_slash_unique(s@, i - 1);
            }
            return Some(i - 1);
        }
        i = i - 1;
    }
    proof {
        lemma_last_slash_unique(s@, -1);
    }
    None
}

/// Returns the segment of `s` after its last '/': the session name a chosen
/// directory implies.
pub fn tail_segment(s: &str) -> (r: String)
    ensures
        r@ == file_of(s@),
{
    let n = s.unicode_len();
    match find_last_slash(s) {
        Some(i) => {
            proof {
                lemma_last_slash(s@);
            }
            s.substring_char(i + 1, n).to_owned()
        },
        None => {
            proof {
                assert(file_of(s@) =~= s@);
            }
            s.to_owned()
        },
    }
}

/// Joins `home` and a relative path with a separator; an empty path yields
/// `home` itself.
pub fn join_path(home: &str, path: &str) -> (r: String)
    ensures
        r@ == join_spec(home@, path@),
{
    if path.unicode_len() == 0 {
        home.to_owned()
    } else {
        let r = String::from_str(home).concat("/").concat(path);
        proof {
            reveal_strlit("/");
            assert("/"@ =~= seq!['/']);
        }
        r
    }
}

/// The directory the typed input stands for: the input with trailing
/// separators removed, joined under `home`.
pub open spec fn resolve_dir_spec(home: Seq<char>, input: Seq<char>) -> Seq<char> {
    join_spec(home, strip_trailing_slashes(input))
}

/// Resolves the relative path a user finished typing against the home
/// directory, ignoring trailing separators.
pub fn resolve_directory(home: &str, input: &str) -> (r: String)
    ensures
        r@ == resolve_dir_spec(home@, input@),
{
    let n = input.unicode_len();
    let mut e: usize = n;
    while e > 0 && input.get_char(e - 1) == '/'
        invariant
            e <= n,
            n == input@.len(),
            forall|k: int| e <= k < n ==> input@[k] == '/',
        decreases e,
    {
        e = e - 1;
    }
    proof {
        lemma_strip_trailing_slashes(input@, e as int);
    }
    join_path(home, input.substring_char(0, e))
}

} // verus!

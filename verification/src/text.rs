use vstd::prelude::*;
use vstd::string::StrSliceExecFns;

verus! {

/// The views of a sequence of owned strings.
pub open spec fn seq_views(v: Seq<String>) -> Seq<Seq<char>> {
    Seq::new(v.len(), |i: int| v[i]@)
}

/// Whether a character has the Unicode `White_Space` property, the
/// set that `str::trim` strips.
pub open spec fn is_space_char(c: char) -> bool {
    let u = c as u32;
    ||| u == 0x20
    ||| (0x9 <= u && u <= 0xD)
    ||| u == 0x85
    ||| u == 0xA0
    ||| u == 0x1680
    ||| (0x2000 <= u && u <= 0x200A)
    ||| u == 0x2028
    ||| u == 0x2029
    ||| u == 0x202F
    ||| u == 0x205F
    ||| u == 0x3000
}

fn is_space(c: char) -> (r: bool)
    ensures
        r == is_space_char(c),
{
    let u = c as u32;
    u == 0x20 || (0x9 <= u && u <= 0xD) || u == 0x85 || u == 0xA0 || u == 0x1680 || (0x2000 <= u
        && u <= 0x200A) || u == 0x2028 || u == 0x2029 || u == 0x202F || u == 0x205F || u == 0x3000
}

/// Whether a line holds nothing but whitespace (or nothing at all).
pub open spec fn is_blank_spec(s: Seq<char>) -> bool {
    forall|i: int| 0 <= i < s.len() ==> is_space_char(s[i])
}

/// Decides blankness, the way trimming the line and asking whether
/// anything is left would.
pub fn is_blank(s: &str) -> (r: bool)
    ensures
        r == is_blank_spec(s@),
{
    let n = s.unicode_len();
    let mut i: usize = 0;
    while i < n
        invariant
            i <= n,
            n == s@.len(),
            forall|j: int| 0 <= j < i ==> is_space_char(s@[j]),
        decreases n - i,
    {
        if !is_space(s.get_char(i)) {
            return false;
        }
        i = i + 1;
    }
    true
}

/// The line with its trailing whitespace removed.
pub open spec fn trim_end_spec(s: Seq<char>) -> Seq<char>
    decreases s.len(),
{
    if s.len() > 0 && is_space_char(s.last()) {
        trim_end_spec(s.drop_last())
    } else {
        s
    }
}

/// Removes trailing whitespace, as `trim_end_spec` describes.
pub fn trim_end_string(s: &str) -> (r: String)
    ensures
        r@ == trim_end_spec(s@),
{
    let n = s.unicode_len();
    let mut k = n;
    proof {
        assert(s@.take(n as int) =~= s@);
    }
    while k > 0 && is_space(s.get_char(k - 1))
        invariant
            k <= n,
            n == s@.len(),
            trim_end_spec(s@) == trim_end_spec(s@.take(k as int)),
        decreases k,
    {
        proof {
            assert(s@.take(k as int).drop_last() =~= s@.take(k - 1));
        }
        k = k - 1;
    }
    let r = s.substring_char(0, k).to_owned();
    proof {
        assert(r@ =~= s@.take(k as int));
    }
    r
}

/// The last `w` characters of a line, or all of it if it is shorter:
/// the part of an input line that still fits the prompt row.
pub open spec fn tail_chars(s: Seq<char>, w: int) -> Seq<char> {
    if s.len() <= w {
        s
    } else {
        s.skip(s.len() - w)
    }
}

/// Keeps the last `w` characters, as `tail_chars` describes.
pub fn tail_string(s: &str, w: usize) -> (r: String)
    ensures
        r@ == tail_chars(s@, w as int),
{
    let n = s.unicode_len();
    if n <= w {
        s.to_owned()
    } else {
        let r = s.substring_char(n - w, n).to_owned();
        proof {
            assert(r@ =~= s@.skip(s@.len() - w));
        }
        r
    }
}

/// Whether the two-character line separator stands at position `i`.
pub open spec fn sep_at(s: Seq<char>, i: int) -> bool {
    0 <= i && i + 2 <= s.len() && s[i] == '\r' && s[i + 1] == '\n'
}

/// The position of the first line separator, or -1 if there is none.
pub open spec fn find_sep(s: Seq<char>) -> int
    decreases s.len(),
{
    if s.len() < 2 {
        -1
    } else if s[0] == '\r' && s[1] == '\n' {
        0
    } else {
        let r = find_sep(s.drop_first());
        if r < 0 {
            -1
        } else {
            r + 1
        }
    }
}

proof fn lemma_find_sep_props(s: Seq<char>)
    ensures
        find_sep(s) == -1 ==> forall|i: int| !sep_at(s, i),
        find_sep(s) >= 0 ==> sep_at(s, find_sep(s)) && (forall|j: int|
            0 <= j < find_sep(s) ==> !sep_at(s, j)),
    decreases s.len(),
{
    if s.len() < 2 {
        assert(forall|i: int| !sep_at(s, i));
    } else if s[0] == '\r' && s[1] == '\n' {
    } else {
        let t = s.drop_first();
        lemma_find_sep_props(t);
        assert(forall|i: int| 0 <= i ==> (sep_at(s, i + 1) == sep_at(t, i))) by {
            assert forall|i: int| 0 <= i implies (sep_at(s, i + 1) == sep_at(t, i)) by {
                if i + 2 <= t.len() {
                    assert(t[i] == s[i + 1]);
                    assert(t[i + 1] == s[i + 2]);
                }
            }
        }
        if find_sep(t) >= 0 {
            assert(sep_at(s, find_sep(t) + 1));
            assert forall|j: int| 0 <= j < find_sep(t) + 1 implies !sep_at(s, j) by {
                if j == 0 {
                    assert(!sep_at(s, 0));
                } else {
                    assert(!sep_at(t, j - 1));
                }
            }
        } else {
            assert forall|i: int| !sep_at(s, i) by {
                if i >= 1 {
                    assert(!sep_at(t, i - 1));
                } else if i == 0 {
                    assert(!sep_at(s, 0));
                }
            }
        }
    }
}

fn find_sep_exec(s: &str) -> (r: Option<usize>)
    ensures
        r matches Some(i) ==> find_sep(s@) == i && sep_at(s@, i as int),
        r is None ==> find_sep(s@) == -1,
{
    let n = s.unicode_len();
    let mut i: usize = 0;
    while 1 <= n && i < n - 1
        invariant
            n == s@.len(),
            forall|j: int| 0 <= j < i ==> !sep_at(s@, j),
        decreases n - i,
    {
        if s.get_char(i) == '\r' && s.get_char(i + 1) == '\n' {
            proof {
                lemma_find_sep_props(s@);
                assert(sep_at(s@, i as int));
                if find_sep(s@) < i {
                    assert(false);
                } else if find_sep(s@) > i {
                    assert(!sep_at(s@, i as int));
                }
            }
            return Some(i);
        }
        i = i + 1;
    }
    proof {
        assert forall|j: int| !sep_at(s@, j) by {
            if 0 <= j && j + 2 <= s@.len() {
                assert(!sep_at(s@, j));
            }
        }
        lemma_find_sep_props(s@);
        if find_sep(s@) >= 0 {
            assert(sep_at(s@, find_sep(s@)));
        }
    }
    None
}

/// The fragments of a line, split on each embedded `"\r\n"`, in
/// order; a line with no separator is one fragment, and a separator
/// at either end contributes an empty fragment.
pub open spec fn split_crlf(s: Seq<char>) -> Seq<Seq<char>>
    decreases s.len(),
    via split_crlf_decreases
{
    let i = find_sep(s);
    if i < 0 {
        seq![s]
    } else {
        seq![s.take(i)] + split_crlf(s.skip(i + 2))
    }
}

#[via_fn]
proof fn split_crlf_decreases(s: Seq<char>) {
    lemma_find_sep_props(s);
}

/// Splits a line on each `"\r\n"`, as `split_crlf` describes.
pub fn split_crlf_lines(s: &str) -> (r: Vec<String>)
    ensures
        seq_views(r@) == split_crlf(s@),
    decreases s@.len(),
{
    let n = s.unicode_len();
    match find_sep_exec(s) {
        None => {
            let mut r: Vec<String> = Vec::new();
            r.push(s.to_owned());
            proof {
                assert(seq_views(r@) =~~= split_crlf(s@));
            }
            r
        },
        Some(i) => {
            proof {
                lemma_find_sep_props(s@);
            }
            let head = s.substring_char(0, i).to_owned();
            let rest = s.substring_char(i + 2, n);
            let mut tail = split_crlf_lines(rest);
            let mut r: Vec<String> = Vec::new();
            r.push(head);
            r.append(&mut tail);
            proof {
                assert(head@ =~= s@.take(i as int));
                assert(rest@ =~= s@.skip(i + 2));
                assert(seq_views(r@) =~~= seq![s@.take(i as int)] + split_crlf(s@.skip(i + 2)));
            }
            r
        },
    }
}

/// What the wrap algorithm folds a line into at a given width. The
/// algorithm is deterministic: the fragments depend on the text and
/// the width alone.
pub uninterp spec fn wrap_of(s: Seq<char>, width: nat) -> Seq<Seq<char>>;

/// Relies on `textwrap::wrap`: fills the text into lines of at most
/// `width` display columns, breaking at word boundaries. At least
/// one line always comes back: every input line, even an empty one,
/// yields an output line.
#[verifier::external_body]
pub(crate) fn wrap_text(s: &str, width: usize) -> (r: Vec<String>)
    ensures
        seq_views(r@) == wrap_of(s@, width as nat),
        r@.len() >= 1,
{
    textwrap::wrap(s, width).into_iter().map(|c| c.into_owned()).collect()
}

/// Splitting never yields nothing: a line with no separator is
/// itself the one fragment.
pub proof fn lemma_split_crlf_nonempty(s: Seq<char>)
    ensures
        split_crlf(s).len() >= 1,
{
}

} // verus!

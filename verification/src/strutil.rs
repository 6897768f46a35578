//! Small executable helpers over `&str` and `String`.
use vstd::prelude::*;

verus! {

/// Compare two string slices by their character sequences.
pub fn str_eq(a: &str, b: &str) -> (r: bool)
    ensures
        r == (a@ == b@),
{
    let sa = a.to_owned();
    let sb = b.to_owned();
    sa == sb
}

/// Relies on `alloc::string::String::push`: appends exactly the one
/// character to the end of the string.
#[verifier::external_body]
pub(crate) fn push_char(s: &mut String, c: char)
    ensures
        final(s)@ == old(s)@.push(c),
{
    s.push(c);
}

/// The length of the longest prefix of `s` without a newline.
pub open spec fn nl_run(s: Seq<char>) -> nat
    decreases s.len(),
{
    if s.len() > 0 && s[0] != '\n' {
        (1 + nl_run(s.drop_first())) as nat
    } else {
        0
    }
}

/// The newline run is no longer than the sequence, has no newline inside,
/// and ends at a newline if it ends before the sequence does.
pub proof fn lemma_nl_run(s: Seq<char>)
    ensures
        nl_run(s) <= s.len(),
        forall|i: int| 0 <= i < nl_run(s) ==> s[i] != '\n',
        nl_run(s) < s.len() ==> s[nl_run(s) as int] == '\n',
    decreases s.len(),
{
    if s.len() > 0 && s[0] != '\n' {
        lemma_nl_run(s.drop_first());
        assert forall|i: int| 0 <= i < nl_run(s) implies s[i] != '\n' by {
            if i > 0 {
                assert(s.drop_first()[i - 1] != '\n');
            }
        }
    }
}

/// A stretch without newlines that then stops is exactly the newline run.
pub proof fn lemma_nl_run_is(s: Seq<char>, n: int)
    requires
        0 <= n <= s.len(),
        forall|i: int| 0 <= i < n ==> s[i] != '\n',
        n < s.len() ==> s[n] == '\n',
    ensures
        nl_run(s) == n,
    decreases s.len(),
{
    if n > 0 {
        assert(s[0] != '\n');
        assert forall|i: int| 0 <= i < n - 1 implies s.drop_first()[i] != '\n' by {
            assert(s[i + 1] != '\n');
        }
        lemma_nl_run_is(s.drop_first(), n - 1);
    }
}

/// A line with its trailing carriage return, if any, removed.
pub open spec fn strip_cr(l: Seq<char>) -> Seq<char> {
    if l.len() > 0 && l[l.len() - 1] == '\r' {
        l.take(l.len() - 1)
    } else {
        l
    }
}

/// The lines of `s`: split at each newline, the final piece kept only if
/// nonempty, each line's trailing carriage return removed.
pub open spec fn spec_split_lines(s: Seq<char>) -> Seq<Seq<char>>
    decreases s.len(),
    via spec_split_lines_dec
{
    if s.len() == 0 {
        Seq::empty()
    } else {
        let n = nl_run(s) as int;
        if n == s.len() {
            seq![strip_cr(s)]
        } else {
            seq![strip_cr(s.take(n))] + spec_split_lines(s.skip(n + 1))
        }
    }
}

#[via_fn]
proof fn spec_split_lines_dec(s: Seq<char>) {
    if s.len() > 0 {
        lemma_nl_run(s);
    }
}

/// The contents of a sequence of strings.
pub open spec fn lines_view(ls: Seq<String>) -> Seq<Seq<char>> {
    Seq::new(ls.len(), |i: int| ls[i]@)
}

/// Split `text` into its lines, as a reader of the persisted state file
/// does: at each newline, dropping a carriage return at a line's end.
pub fn split_lines(text: &str) -> (r: Vec<String>)
    ensures
        lines_view(r@) == spec_split_lines(text@),
{
    let ghost s = text@;
    let n = text.unicode_len();
    let mut out: Vec<String> = Vec::new();
    let mut i: usize = 0;
    proof {
        assert(s.skip(0) =~= s);
        assert(lines_view(out@) + spec_split_lines(s) =~= spec_split_lines(s));
    }
    while i < n
        invariant
            0 <= i <= n,
            n == s.len(),
            text@ == s,
            spec_split_lines(s) == lines_view(out@) + spec_split_lines(s.skip(i as int)),
        decreases n - i,
    {
        let ghost out0 = out@;
        let ghost i0 = i as int;
        let ghost rest = s.skip(i as int);
        let mut j = i;
        loop
            invariant_except_break
                i <= j <= n,
                n == s.len(),
                text@ == s,
                forall|k: int| i <= k < j ==> s[k] != '\n',
            ensures
                i <= j <= n,
                forall|k: int| i <= k < j ==> s[k] != '\n',
                j == n || s[j as int] == '\n',
            decreases n - j,
        {
            if j >= n {
                break ;
            }
            if text.get_char(j) == '\n' {
                break ;
            }
            j = j + 1;
        }
        proof {
            assert forall|k: int| 0 <= k < j - i implies rest[k] != '\n' by {
                assert(rest[k] == s[i + k]);
            }
            if j < n {
                assert(rest[j - i] == s[j as int]);
            }
            lemma_nl_run_is(rest, j - i);
        }
        let end = if j > i && text.get_char(j - 1) == '\r' {
            j - 1
        } else {
            j
        };
        let w = text.substring_char(i, end);
        out.push(w.to_owned());
        proof {
            assert(rest.take(j - i) =~= s.subrange(i as int, j as int));
            if j > i && s[j - 1] == '\r' {
                assert(strip_cr(rest.take(j - i)) =~= s.subrange(i as int, end as int));
            } else {
                assert(strip_cr(rest.take(j - i)) =~= s.subrange(i as int, end as int));
            }
            assert(lines_view(out@) =~= lines_view(out0).push(w@));
        }
        if j >= n {
            proof {
                assert(nl_run(rest) == rest.len());
                assert(strip_cr(rest.take(j - i)) =~= strip_cr(rest));
                assert(lines_view(out0) + seq![strip_cr(rest)] =~= lines_view(out@));
            }
            return out;
        }
        i = j + 1;
        proof {
            assert(rest.skip(j - i0 + 1) =~= s.skip(j as int + 1));
            assert(lines_view(out0) + (seq![strip_cr(rest.take(nl_run(rest) as int))]
                + spec_split_lines(s.skip(j as int + 1))) =~= lines_view(out@) + spec_split_lines(
                s.skip(j as int + 1),
            ));
        }
    }
    proof {
        assert(s.skip(n as int).len() == 0);
        assert(lines_view(out@) + spec_split_lines(s.skip(n as int)) =~= lines_view(out@));
    }
    out
}

} // verus!

//! The managed block of the hosts file: the marker lines that delimit it and
//! its removal.
use vstd::prelude::*;
use crate::text::{
    chars_of, find_first, find_from, find_in, is_ws, lemma_find_from, lemma_find_from_none,
    occurs_at, slice_of, string_of, trim_end_len, trim_end_ws, trim_start_char,
    trim_start_char_len,
};

verus! {

broadcast use vstd::string::group_string_axioms;

/// The line that opens the managed block.
pub const START_MARKER: &'static str = "# >>> SITE_BLOCKER_START";

/// The line that closes the managed block.
pub const END_MARKER: &'static str = "# <<< SITE_BLOCKER_END";

/// No character of `p` is `c`.
pub open spec fn lacks(p: Seq<char>, c: char) -> bool {
    forall|i: int| 0 <= i < p.len() ==> p[i] != c
}

/// `p` stands at most once in `s`.
pub open spec fn at_most_once(s: Seq<char>, p: Seq<char>) -> bool {
    forall|i: int, j: int| occurs_at(s, p, i) && occurs_at(s, p, j) ==> i == j
}

/// What the markers hold that the proofs use: neither spans a line break,
/// and both are single lines starting with `#`.
pub proof fn lemma_markers()
    ensures
        START_MARKER@.len() == 24,
        END_MARKER@.len() == 22,
        lacks(START_MARKER@, '\n'),
        lacks(END_MARKER@, '\n'),
        START_MARKER@[0] == '#',
        END_MARKER@[0] == '#',
        START_MARKER@[1] == ' ',
        END_MARKER@[1] == ' ',
        END_MARKER@[5] == ' ',
        START_MARKER@[2] == '>',
        END_MARKER@[2] == '<',
        forall|i: int| 1 <= i < START_MARKER@.len() ==> START_MARKER@[i] != '#',
        forall|i: int| 1 <= i < END_MARKER@.len() ==> END_MARKER@[i] != '#',
{
    reveal_strlit("# >>> SITE_BLOCKER_START");
    reveal_strlit("# <<< SITE_BLOCKER_END");
}

/// The index just past the line on which the end marker at `e` stands (past
/// its line break, or the end of `x` where there is none).
pub open spec fn line_end_after(x: Seq<char>, e: int) -> int {
    match find_from(x, seq!['\n'], e + END_MARKER@.len()) {
        Some(o) => o + 1,
        None => x.len() as int,
    }
}

/// `x` with the managed block taken out: the text before the first start
/// marker, without trailing whitespace, then one line break, then the text
/// after the line of the first end marker, without leading blank lines.
/// Where a marker is missing, or the end marker comes first, `x` as it is.
pub open spec fn remove_block(x: Seq<char>) -> Seq<char> {
    match (find_first(x, START_MARKER@), find_first(x, END_MARKER@)) {
        (Some(s), Some(e)) => if e >= s {
            trim_end_ws(x.take(s)) + seq!['\n'] + trim_start_char(
                x.subrange(line_end_after(x, e), x.len() as int),
                '\n',
            )
        } else {
            x
        },
        _ => x,
    }
}

/// Removes the managed block from hosts-file content.
pub fn remove_our_block(content: &str) -> (r: String)
    ensures
        r@ == remove_block(content@),
{
    let x = chars_of(content);
    let sm = chars_of(START_MARKER);
    let em = chars_of(END_MARKER);
    let s_idx = find_in(&x, &sm, 0);
    let e_idx = find_in(&x, &em, 0);
    if let (Some(s), Some(e)) = (s_idx, e_idx) {
        if e >= s {
            proof {
                lemma_find_from(x@, sm@, 0);
                lemma_find_from(x@, em@, 0);
                assert(find_from(x@, em@, 0) == Some(e as int));
                assert(occurs_at(x@, em@, e as int));
            }
            assert(e + em.len() <= x.len());
            let nl: Vec<char> = vec!['\n'];
            assert(nl@ =~= seq!['\n']);
            let after_end = match find_in(&x, &nl, e + em.len()) {
                Some(o) => {
                    proof {
                        lemma_find_from(x@, nl@, e + em.len());
                        assert(occurs_at(x@, nl@, o as int));
                    }
                    o + 1
                },
                None => x.len(),
            };
            let before = slice_of(&x, 0, s);
            let n = trim_end_len(&before);
            assert(before@ =~= x@.take(s as int));
            let after = slice_of(&x, after_end, x.len());
            let k = trim_start_char_len(&after, '\n');
            let mut out = slice_of(&before, 0, n);
            assert(out@ =~= before@.take(n as int));
            out.push('\n');
            let mut rest = slice_of(&after, k, after.len());
            out.append(&mut rest);
            return string_of(&out);
        }
    }
    string_of(&x)
}

/// A pattern without line breaks that stands in `a`, a line break, then `c`,
/// stands in `a` or in `c`.
pub proof fn lemma_occurs_in_join(a: Seq<char>, c: Seq<char>, p: Seq<char>, i: int)
    requires
        occurs_at(a + seq!['\n'] + c, p, i),
        lacks(p, '\n'),
    ensures
        (i + p.len() <= a.len() && occurs_at(a, p, i)) || (i > a.len() && occurs_at(
            c,
            p,
            i - a.len() - 1,
        )),
{
    let r = a + seq!['\n'] + c;
    if i + p.len() <= a.len() {
        assert(r.subrange(i, i + p.len()) =~= a.subrange(i, i + p.len()));
    } else if i <= a.len() {
        assert(r.subrange(i, i + p.len())[a.len() - i] == '\n');
    } else {
        assert(r.subrange(i, i + p.len()) =~= c.subrange(
            i - a.len() - 1,
            i - a.len() - 1 + p.len(),
        ));
    }
}

/// `trim_end_ws` keeps a prefix.
pub proof fn lemma_trim_end_prefix(s: Seq<char>)
    ensures
        trim_end_ws(s).len() <= s.len(),
        trim_end_ws(s) == s.take(trim_end_ws(s).len() as int),
    decreases s.len(),
{
    if s.len() > 0 && is_ws(s.last()) {
        lemma_trim_end_prefix(s.drop_last());
        assert(s.drop_last().take(trim_end_ws(s).len() as int) =~= s.take(
            trim_end_ws(s).len() as int,
        ));
    } else {
        assert(s.take(s.len() as int) =~= s);
    }
}

/// `trim_start_char` keeps a suffix.
pub proof fn lemma_trim_start_char_suffix(s: Seq<char>, c: char)
    ensures
        trim_start_char(s, c).len() <= s.len(),
        trim_start_char(s, c) == s.subrange(
            s.len() - trim_start_char(s, c).len(),
            s.len() as int,
        ),
    decreases s.len(),
{
    if s.len() > 0 && s[0] == c {
        lemma_trim_start_char_suffix(s.drop_first(), c);
        let t = trim_start_char(s, c);
        assert(s.drop_first().subrange(s.len() - 1 - t.len(), s.len() - 1) =~= s.subrange(
            s.len() - t.len(),
            s.len() as int,
        ));
    } else {
        assert(s.subrange(0, s.len() as int) =~= s);
    }
}

/// Content without a start marker comes back from removal unchanged.
pub proof fn lemma_remove_block_without_markers(x: Seq<char>)
    requires
        forall|i: int| !occurs_at(x, START_MARKER@, i),
    ensures
        remove_block(x) == x,
{
    lemma_find_from_none(x, START_MARKER@, 0);
}

/// Removal leaves no start marker behind in content that held at most one.
pub proof fn lemma_remove_block_leaves_no_start(x: Seq<char>)
    requires
        at_most_once(x, START_MARKER@),
        remove_block(x) != x,
    ensures
        forall|i: int| !occurs_at(remove_block(x), START_MARKER@, i),
{
    let sm = START_MARKER@;
    let em = END_MARKER@;
    lemma_markers();
    lemma_find_from(x, sm, 0);
    lemma_find_from(x, em, 0);
    let s = find_first(x, sm)->0;
    let e = find_first(x, em)->0;
    let ae = line_end_after(x, e);
    lemma_find_from(x, seq!['\n'], e + em.len());
    let before = x.take(s);
    let after = x.subrange(ae, x.len() as int);
    let a = trim_end_ws(before);
    let c = trim_start_char(after, '\n');
    lemma_trim_end_prefix(before);
    lemma_trim_start_char_suffix(after, '\n');
    assert forall|i: int| !occurs_at(remove_block(x), sm, i) by {
        if occurs_at(remove_block(x), sm, i) {
            lemma_occurs_in_join(a, c, sm, i);
            if i + sm.len() <= a.len() {
                assert(x.subrange(i, i + sm.len()) =~= a.subrange(i, i + sm.len()));
                assert(occurs_at(x, sm, i));
            } else {
                let j = i - a.len() - 1;
                let k = x.len() - c.len() + j;
                assert(x.subrange(k, k + sm.len()) =~= c.subrange(j, j + sm.len()));
                assert(occurs_at(x, sm, k));
            }
        }
    }
}

/// Removing the managed block twice is removing it once, for content that
/// holds at most one start marker.
pub proof fn lemma_remove_block_idempotent(x: Seq<char>)
    requires
        at_most_once(x, START_MARKER@),
    ensures
        remove_block(remove_block(x)) == remove_block(x),
{
    if remove_block(x) != x {
        lemma_remove_block_leaves_no_start(x);
        lemma_remove_block_without_markers(remove_block(x));
    }
}

} // verus!

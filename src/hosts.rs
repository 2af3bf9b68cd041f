//! What the helper writes into the hosts file, and the tamper check that
//! reads it back.
use vstd::prelude::*;
use crate::block::{lemma_markers, remove_block, remove_our_block, END_MARKER, START_MARKER};
use crate::json::{decode_list, json_list_of};
use crate::schedule::views;
use crate::text::{
    chars_of, contains_whitespace, equal_chars, find_first, find_in, has_ws, is_ws, lemma_find_from,
    matches_at, occurs_at, slice_of, split_chars, split_on, string_of, trim_chars,
    trim_end_len, trim_end_ws, trim_start_ws, trim_ws, lower_of, vec_views,
};

verus! {

broadcast use vstd::string::group_string_axioms;

/// The loopback address that blocked names are sent to.
pub const LOOPBACK: &'static str = "127.0.0.1";

/// The null-route address, also read as a redirect by the tamper check.
pub const NULL_ROUTE: &'static str = "0.0.0.0";

/// The prefix of the second name written for each domain.
pub const WWW: &'static str = "www.";

/// A domain name as the blocker compares it: trimmed, then lower-cased.
pub open spec fn normalized(d: Seq<char>) -> Seq<char> {
    lower_of(trim_ws(d))
}

/// A normalized name that can be written: non-empty, without whitespace.
pub open spec fn usable(n: Seq<char>) -> bool {
    n.len() > 0 && !has_ws(n)
}

/// The names written for a domain list, in order: for each usable
/// normalized domain, the domain itself and its `www.` variant.
pub open spec fn entries(ds: Seq<Seq<char>>) -> Seq<Seq<char>>
    decreases ds.len(),
{
    if ds.len() == 0 {
        Seq::empty()
    } else {
        let n = normalized(ds.last());
        if usable(n) {
            entries(ds.drop_last()) + seq![n, WWW@ + n]
        } else {
            entries(ds.drop_last())
        }
    }
}

/// One redirect line of the block.
pub open spec fn entry_line(t: Seq<char>) -> Seq<char> {
    LOOPBACK@ + seq![' '] + t + seq!['\n']
}

/// The redirect lines for a list of names.
pub open spec fn lines_of(es: Seq<Seq<char>>) -> Seq<char>
    decreases es.len(),
{
    if es.len() == 0 {
        Seq::empty()
    } else {
        lines_of(es.drop_last()) + entry_line(es.last())
    }
}

/// The managed block for a domain list, with the blank line before it.
pub open spec fn block_text(ds: Seq<Seq<char>>) -> Seq<char> {
    seq!['\n'] + START_MARKER@ + seq!['\n'] + lines_of(entries(ds)) + END_MARKER@ + seq!['\n']
}

/// Hosts-file content after `apply(ds)`: the old block removed and, for a
/// non-empty list, a new block appended.
pub open spec fn applied(content: Seq<char>, ds: Seq<Seq<char>>) -> Seq<char> {
    if ds.len() == 0 {
        remove_block(content)
    } else {
        trim_end_ws(remove_block(content)) + seq!['\n'] + block_text(ds)
    }
}

/// Hosts-file content after `clear()`.
pub open spec fn cleared(content: Seq<char>) -> Seq<char> {
    remove_block(content)
}

/// Trims and lower-cases a domain name.
pub fn normalize_domain(d: &str) -> (r: String)
    ensures
        r@ == normalized(d@),
{
    let t = trim_chars(&chars_of(d));
    let s = string_of(&t);
    s.as_str().to_lowercase()
}

/// Appends the characters of `w` to `out`.
fn push_all(out: &mut Vec<char>, w: &Vec<char>)
    ensures
        final(out)@ == old(out)@ + w@,
{
    let mut i: usize = 0;
    while i < w.len()
        invariant
            i <= w.len(),
            out@ == old(out)@ + w@.take(i as int),
        decreases w.len() - i,
    {
        out.push(w[i]);
        assert(w@.take(i + 1) =~= w@.take(i as int).push(w@[i as int]));
        i = i + 1;
    }
    assert(w@.take(i as int) =~= w@);
}

/// The names written for `domains`, as `entries` gives them.
pub fn entries_of(domains: &Vec<String>) -> (r: Vec<Vec<char>>)
    ensures
        vec_views(r@) == entries(views(domains@)),
{
    let www = chars_of(WWW);
    let mut r: Vec<Vec<char>> = Vec::new();
    let mut i: usize = 0;
    while i < domains.len()
        invariant
            i <= domains.len(),
            www@ == WWW@,
            vec_views(r@) == entries(views(domains@).take(i as int)),
        decreases domains.len() - i,
    {
        let ghost ds = views(domains@).take(i + 1);
        assert(ds.drop_last() =~= views(domains@).take(i as int));
        assert(ds.last() == domains@[i as int]@);
        let n = normalize_domain(&domains[i]);
        let nc = chars_of(n.as_str());
        if nc.len() > 0 && !contains_whitespace(&nc) {
            let mut w = www.clone();
            assert(w@ == www@);
            push_all(&mut w, &nc);
            let ghost before = r@;
            r.push(nc);
            r.push(w);
            assert(vec_views(r@) =~= vec_views(before) + seq![nc@, w@]);
        }
        i = i + 1;
    }
    assert(views(domains@).take(i as int) =~= views(domains@));
    r
}

/// Rewrites hosts-file content for `domains`: removes the managed block and,
/// unless the list is empty, appends a new one with a loopback line for each
/// usable domain and for its `www.` variant.
pub fn apply_domains(content: &str, domains: &Vec<String>) -> (r: String)
    ensures
        r@ == applied(content@, views(domains@)),
{
    let cleaned = remove_our_block(content);
    if domains.len() == 0 {
        return cleaned;
    }
    let es = entries_of(domains);
    let c = chars_of(cleaned.as_str());
    let n = trim_end_len(&c);
    let mut out = slice_of(&c, 0, n);
    assert(out@ =~= c@.take(n as int));
    out.push('\n');
    out.push('\n');
    let sm = chars_of(START_MARKER);
    push_all(&mut out, &sm);
    out.push('\n');
    let ghost head = out@;
    let lb = chars_of(LOOPBACK);
    let mut i: usize = 0;
    while i < es.len()
        invariant
            i <= es.len(),
            lb@ == LOOPBACK@,
            out@ == head + lines_of(vec_views(es@).take(i as int)),
        decreases es.len() - i,
    {
        let ghost before = out@;
        push_all(&mut out, &lb);
        out.push(' ');
        push_all(&mut out, &es[i]);
        out.push('\n');
        assert(vec_views(es@).take(i + 1).drop_last() =~= vec_views(es@).take(i as int));
        assert(out@ =~= before + entry_line(es@[i as int]@));
        i = i + 1;
    }
    assert(vec_views(es@).take(i as int) =~= vec_views(es@));
    let em = chars_of(END_MARKER);
    push_all(&mut out, &em);
    out.push('\n');
    assert(out@ =~= trim_end_ws(remove_block(content@)) + seq!['\n'] + block_text(
        views(domains@),
    ));
    string_of(&out)
}

/// Removes the managed block, leaving the rest of the content untouched.
pub fn clear_block(content: &str) -> (r: String)
    ensures
        r@ == cleared(content@),
{
    remove_our_block(content)
}


/// `s` begins with `p`.
pub open spec fn starts_with(s: Seq<char>, p: Seq<char>) -> bool {
    p.len() <= s.len() && s.take(p.len() as int) == p
}

/// The length of the run of non-whitespace characters that begins `s`.
pub open spec fn word_len(s: Seq<char>) -> nat
    decreases s.len(),
{
    if s.len() == 0 || is_ws(s[0]) {
        0
    } else {
        1 + word_len(s.drop_first())
    }
}

/// The second whitespace-separated word of a line that begins with a word
/// (empty where there is none).
pub open spec fn second_word(l: Seq<char>) -> Seq<char> {
    let r = trim_start_ws(l.skip(word_len(l) as int));
    r.take(word_len(r) as int)
}

/// A line that redirects a name: it begins with the loopback or the
/// null-route address.
pub open spec fn redirect_line(l: Seq<char>) -> bool {
    starts_with(l, LOOPBACK@) || starts_with(l, NULL_ROUTE@)
}

/// The name that a line of the block redirects, if it redirects one.
pub open spec fn line_token(line: Seq<char>) -> Option<Seq<char>> {
    let l = trim_ws(line);
    if redirect_line(l) && second_word(l).len() > 0 {
        Some(second_word(l))
    } else {
        None
    }
}

/// The names that a list of lines redirects, in order.
pub open spec fn tokens_of(lines: Seq<Seq<char>>) -> Seq<Seq<char>>
    decreases lines.len(),
{
    if lines.len() == 0 {
        Seq::empty()
    } else {
        tokens_of(lines.drop_last()) + match line_token(lines.last()) {
            Some(t) => seq![t],
            None => Seq::empty(),
        }
    }
}

/// The text between the first start marker and the first end marker, where
/// both are present in that order.
pub open spec fn block_region(x: Seq<char>) -> Option<Seq<char>> {
    match (find_first(x, START_MARKER@), find_first(x, END_MARKER@)) {
        (Some(s), Some(e)) => if s < e {
            Some(x.subrange(s + START_MARKER@.len(), e))
        } else {
            None
        },
        _ => None,
    }
}

/// The names that the managed block of `x` redirects.
pub open spec fn block_tokens(x: Seq<char>) -> Seq<Seq<char>> {
    match block_region(x) {
        Some(r) => tokens_of(split_on(r, '\n')),
        None => Seq::empty(),
    }
}

/// The hosts content `x` agrees with the domain list `ds`: with no start
/// marker, the list is empty; otherwise both markers stand in order and the
/// block redirects the same set of names that applying `ds` writes.
pub open spec fn hosts_valid(x: Seq<char>, ds: Seq<Seq<char>>) -> bool {
    match find_first(x, START_MARKER@) {
        None => ds.len() == 0,
        Some(s) => match find_first(x, END_MARKER@) {
            None => false,
            Some(e) => s < e && block_tokens(x).to_set() == entries(ds).to_set(),
        },
    }
}

/// Whether `x` is among `v`.
fn holds(v: &Vec<Vec<char>>, x: &Vec<char>) -> (r: bool)
    ensures
        r == vec_views(v@).contains(x@),
{
    let mut i: usize = 0;
    while i < v.len()
        invariant
            i <= v.len(),
            forall|k: int| 0 <= k < i ==> v@[k]@ != x@,
        decreases v.len() - i,
    {
        if equal_chars(&v[i], x) {
            assert(vec_views(v@)[i as int] == x@);
            return true;
        }
        i = i + 1;
    }
    assert forall|k: int| 0 <= k < vec_views(v@).len() implies vec_views(v@)[k] != x@ by {}
    false
}

/// Whether every element of `a` is among `b`.
fn all_among(a: &Vec<Vec<char>>, b: &Vec<Vec<char>>) -> (r: bool)
    ensures
        r == (forall|k: int| 0 <= k < a@.len() ==> vec_views(b@).contains(a@[k]@)),
{
    let mut i: usize = 0;
    while i < a.len()
        invariant
            i <= a.len(),
            forall|k: int| 0 <= k < i ==> vec_views(b@).contains(a@[k]@),
        decreases a.len() - i,
    {
        if !holds(b, &a[i]) {
            return false;
        }
        i = i + 1;
    }
    true
}

/// Whether `a` and `b` hold the same set of names.
pub fn same_names(a: &Vec<Vec<char>>, b: &Vec<Vec<char>>) -> (r: bool)
    ensures
        r == (vec_views(a@).to_set() == vec_views(b@).to_set()),
{
    let ab = all_among(a, b);
    let ba = all_among(b, a);
    proof {
        let sa = vec_views(a@).to_set();
        let sb = vec_views(b@).to_set();
        if ab && ba {
            assert forall|x: Seq<char>| sa.contains(x) <==> sb.contains(x) by {
                if sa.contains(x) {
                    let k = choose|k: int| 0 <= k < a@.len() && vec_views(a@)[k] == x;
                    assert(vec_views(b@).contains(a@[k]@));
                }
                if sb.contains(x) {
                    let k = choose|k: int| 0 <= k < b@.len() && vec_views(b@)[k] == x;
                    assert(vec_views(a@).contains(b@[k]@));
                }
            }
            assert(sa =~= sb);
        } else if !ab {
            let k = choose|k: int| 0 <= k < a@.len() && !vec_views(b@).contains(a@[k]@);
            assert(vec_views(a@)[k] == a@[k]@);
            assert(sa.contains(a@[k]@));
            assert(!sb.contains(a@[k]@));
        } else {
            let k = choose|k: int| 0 <= k < b@.len() && !vec_views(a@).contains(b@[k]@);
            assert(vec_views(b@)[k] == b@[k]@);
            assert(sb.contains(b@[k]@));
            assert(!sa.contains(b@[k]@));
        }
    }
    ab && ba
}

/// The second whitespace-separated word of a line.
fn second_word_of(l: &Vec<char>) -> (r: Vec<char>)
    ensures
        r@ == second_word(l@),
{
    let mut i: usize = 0;
    assert(l@.skip(0) =~= l@);
    while i < l.len() && !crate::text::is_whitespace(l[i])
        invariant
            i <= l.len(),
            word_len(l@) == i + word_len(l@.skip(i as int)),
        decreases l.len() - i,
    {
        assert(l@.skip(i as int).drop_first() =~= l@.skip(i + 1));
        i = i + 1;
    }
    assert(word_len(l@.skip(i as int)) == 0);
    let mut j: usize = i;
    while j < l.len() && crate::text::is_whitespace(l[j])
        invariant
            i <= j <= l.len(),
            word_len(l@) == i,
            trim_start_ws(l@.skip(i as int)) == trim_start_ws(l@.skip(j as int)),
        decreases l.len() - j,
    {
        assert(l@.skip(j as int).drop_first() =~= l@.skip(j + 1));
        j = j + 1;
    }
    let ghost rest = l@.skip(j as int);
    assert(trim_start_ws(rest) == rest);
    let mut k: usize = j;
    while k < l.len() && !crate::text::is_whitespace(l[k])
        invariant
            j <= k <= l.len(),
            rest == l@.skip(j as int),
            word_len(rest) == (k - j) + word_len(l@.skip(k as int)),
        decreases l.len() - k,
    {
        assert(l@.skip(k as int).drop_first() =~= l@.skip(k + 1));
        k = k + 1;
    }
    assert(word_len(l@.skip(k as int)) == 0);
    assert(rest.take(k - j) =~= l@.subrange(j as int, k as int));
    slice_of(l, j, k)
}

/// The name that a line of the block redirects, if it redirects one.
pub fn token_of_line(line: &Vec<char>) -> (r: Option<Vec<char>>)
    ensures
        match r {
            Some(t) => line_token(line@) == Some(t@),
            None => line_token(line@) is None,
        },
{
    let l = trim_chars(line);
    let lb = chars_of(LOOPBACK);
    let nr = chars_of(NULL_ROUTE);
    let is_redirect = matches_at(&l, &lb, 0) || matches_at(&l, &nr, 0);
    assert(occurs_at(l@, lb@, 0) ==> l@.subrange(0, lb@.len() as int) =~= l@.take(lb@.len() as int));
    assert(occurs_at(l@, nr@, 0) ==> l@.subrange(0, nr@.len() as int) =~= l@.take(nr@.len() as int));
    assert(starts_with(l@, lb@) ==> l@.subrange(0, lb@.len() as int) =~= l@.take(lb@.len() as int));
    assert(starts_with(l@, nr@) ==> l@.subrange(0, nr@.len() as int) =~= l@.take(nr@.len() as int));
    if !is_redirect {
        return None;
    }
    let w = second_word_of(&l);
    if w.len() == 0 {
        None
    } else {
        Some(w)
    }
}

/// Checks hosts-file content against the domain list last applied: true
/// where the managed block redirects exactly the names that applying the
/// list writes (or, for an empty list, where there is no block).
pub fn validate_hosts_content(content: &str, expected: &Vec<String>) -> (r: bool)
    ensures
        r == hosts_valid(content@, views(expected@)),
{
    let x = chars_of(content);
    let sm = chars_of(START_MARKER);
    let em = chars_of(END_MARKER);
    let s = match find_in(&x, &sm, 0) {
        Some(s) => s,
        None => return expected.len() == 0,
    };
    let e = match find_in(&x, &em, 0) {
        Some(e) => e,
        None => return false,
    };
    if s >= e {
        return false;
    }
    proof {
        lemma_markers();
        lemma_find_from(x@, sm@, 0);
        lemma_find_from(x@, em@, 0);
        assert(occurs_at(x@, sm@, s as int));
        assert(occurs_at(x@, em@, e as int));
        if e < s + sm.len() {
            assert(x@[e as int] == x@.subrange(e as int, e + em@.len())[0]);
            assert(x@[e as int] == x@.subrange(s as int, s + sm@.len())[e - s]);
        }
    }
    let region = slice_of(&x, s + sm.len(), e);
    let lines = split_chars(&region, '\n');
    let mut found: Vec<Vec<char>> = Vec::new();
    let mut i: usize = 0;
    while i < lines.len()
        invariant
            i <= lines.len(),
            vec_views(found@) == tokens_of(vec_views(lines@).take(i as int)),
        decreases lines.len() - i,
    {
        assert(vec_views(lines@).take(i + 1).drop_last() =~= vec_views(lines@).take(i as int));
        let ghost before = found@;
        match token_of_line(&lines[i]) {
            Some(t) => {
                found.push(t);
                assert(vec_views(found@) =~= vec_views(before).push(t@));
            },
            None => {},
        }
        assert(vec_views(found@) =~= tokens_of(vec_views(lines@).take(i + 1)));
        i = i + 1;
    }
    assert(vec_views(lines@).take(i as int) =~= vec_views(lines@));
    let want = entries_of(expected);
    same_names(&found, &want)
}


/// A helper argument that is not a JSON array of strings.
#[derive(Clone, Copy, PartialEq, Eq, Structural, Debug)]
pub enum HelperError {
    InvalidArgument,
}

/// The `apply` verb on hosts-file content: reads the JSON domain list and
/// rewrites the content for it; a malformed list is an error.
pub fn apply_command(content: &str, json_arg: &str) -> (r: Result<String, HelperError>)
    ensures
        match json_list_of(json_arg@) {
            Some(ds) => r matches Ok(s) && s@ == applied(content@, ds),
            None => r == Err::<String, HelperError>(HelperError::InvalidArgument),
        },
{
    match decode_list(json_arg) {
        Ok(domains) => Ok(apply_domains(content, &domains)),
        Err(_) => Err(HelperError::InvalidArgument),
    }
}

} // verus!

//! Laws that tie the writer and the tamper check together: what `apply`
//! writes passes the check, and a block that lost a name fails it.
use vstd::prelude::*;
use crate::block::{lemma_markers, lemma_occurs_in_join, lemma_trim_end_prefix, remove_block, END_MARKER, START_MARKER};
use crate::hosts::{
    applied, block_region, block_tokens, cleared, entries, entry_line, hosts_valid,
    line_token, lines_of, normalized, redirect_line, second_word, starts_with, tokens_of, usable,
    word_len, LOOPBACK, WWW,
};
use crate::text::{
    has_ws, is_ws, lemma_find_from_at, occurs_at, split_on,
    trim_end_ws, trim_start_ws, trim_ws,
};

verus! {

broadcast use vstd::string::group_string_axioms;

/// A redirect line without its line break.
pub open spec fn line_text(t: Seq<char>) -> Seq<char> {
    LOOPBACK@ + seq![' '] + t
}

/// The redirect lines for a list of names, without line breaks.
pub open spec fn line_texts(es: Seq<Seq<char>>) -> Seq<Seq<char>> {
    es.map_values(|t: Seq<char>| line_text(t))
}

/// Every name that `entries` gives can be written.
pub proof fn lemma_entries_usable(ds: Seq<Seq<char>>)
    ensures
        forall|i: int| 0 <= i < entries(ds).len() ==> usable(#[trigger] entries(ds)[i]),
    decreases ds.len(),
{
    reveal_strlit("www.");
    if ds.len() > 0 {
        lemma_entries_usable(ds.drop_last());
        let n = normalized(ds.last());
        if usable(n) {
            let w = WWW@ + n;
            assert forall|k: int| 0 <= k < w.len() implies !is_ws(w[k]) by {
                if k >= 4 {
                    assert(w[k] == n[k - 4]);
                }
            }
            let e = entries(ds.drop_last()) + seq![n, w];
            assert forall|i: int| 0 <= i < e.len() implies usable(#[trigger] e[i]) by {
                if i >= entries(ds.drop_last()).len() {
                }
            }
        }
    }
}

/// A usable normalized domain of the list is among its entries.
pub proof fn lemma_entries_contain(ds: Seq<Seq<char>>, i: int)
    requires
        0 <= i < ds.len(),
        usable(normalized(ds[i])),
    ensures
        entries(ds).contains(normalized(ds[i])),
    decreases ds.len(),
{
    let n = normalized(ds.last());
    if i == ds.len() - 1 {
        let e = entries(ds.drop_last()) + seq![n, WWW@ + n];
        assert(e[entries(ds.drop_last()).len() as int] == n);
    } else {
        lemma_entries_contain(ds.drop_last(), i);
        let k = choose|k: int|
            0 <= k < entries(ds.drop_last()).len() && entries(ds.drop_last())[k] == normalized(
                ds[i],
            );
        if usable(n) {
            let e = entries(ds.drop_last()) + seq![n, WWW@ + n];
            assert(e[k] == normalized(ds[i]));
        }
    }
}

/// The only whitespace in a redirect line is the space after the address
/// and the closing line break.
pub proof fn lemma_entry_line_ws(t: Seq<char>, k: int)
    requires
        !has_ws(t),
        0 <= k < entry_line(t).len(),
        is_ws(entry_line(t)[k]),
    ensures
        k == 9 || k == entry_line(t).len() - 1,
{
    reveal_strlit("127.0.0.1");
    if 9 < k < entry_line(t).len() - 1 {
        assert(entry_line(t)[k] == t[k - 10]);
    }
}

/// The redirect lines are empty or end with a line break, and the end
/// marker stands nowhere in them.
pub proof fn lemma_lines_lack_end_marker(es: Seq<Seq<char>>)
    requires
        forall|i: int| 0 <= i < es.len() ==> usable(#[trigger] es[i]),
    ensures
        lines_of(es).len() == 0 || lines_of(es).last() == '\n',
        forall|k: int| !occurs_at(lines_of(es), END_MARKER@, k),
    decreases es.len(),
{
    lemma_markers();
    let em = END_MARKER@;
    if es.len() > 0 {
        let pre = es.drop_last();
        assert forall|i: int| 0 <= i < pre.len() implies usable(#[trigger] pre[i]) by {
            assert(pre[i] == es[i]);
        }
        lemma_lines_lack_end_marker(pre);
        let l0 = lines_of(pre);
        let t = es.last();
        assert(usable(es[es.len() - 1]));
        let w = entry_line(t);
        let l = l0 + w;
        assert forall|k: int| !occurs_at(l, em, k) by {
            if occurs_at(l, em, k) {
                let sub = l.subrange(k, k + em.len());
                if k + em.len() <= l0.len() {
                    assert(l0.subrange(k, k + em.len()) =~= sub);
                    assert(occurs_at(l0, em, k));
                } else if k < l0.len() {
                    assert(sub[l0.len() - 1 - k] == l0.last());
                    assert(em[l0.len() - 1 - k] == '\n');
                } else {
                    let m = k - l0.len();
                    assert(w.subrange(m, m + em.len()) =~= sub);
                    assert(w[m + 1] == em[1]);
                    assert(w[m + 5] == em[5]);
                    lemma_entry_line_ws(t, m + 1);
                    lemma_entry_line_ws(t, m + 5);
                }
            }
        }
    }
}

/// Splitting text followed by a piece without separators extends the last
/// piece.
pub proof fn lemma_split_append(s: Seq<char>, w: Seq<char>, sep: char)
    requires
        forall|i: int| 0 <= i < w.len() ==> w[i] != sep,
    ensures
        split_on(s + w, sep) == split_on(s, sep).update(
            split_on(s, sep).len() - 1,
            split_on(s, sep).last() + w,
        ),
    decreases w.len(),
{
    crate::text::lemma_split_on_len(s, sep);
    if w.len() == 0 {
        assert(s + w =~= s);
        assert(split_on(s, sep).last() + w =~= split_on(s, sep).last());
        assert(split_on(s, sep).update(split_on(s, sep).len() - 1, split_on(s, sep).last())
            =~= split_on(s, sep));
    } else {
        let w0 = w.drop_last();
        lemma_split_append(s, w0, sep);
        assert((s + w).drop_last() =~= s + w0);
        let f = split_on(s, sep);
        assert((f.last() + w0).push(w.last()) =~= f.last() + w);
        assert(f.update(f.len() - 1, f.last() + w0).update(f.len() - 1, f.last() + w)
            =~= f.update(f.len() - 1, f.last() + w));
    }
}

/// The block region that `apply` writes splits into an empty piece, one
/// piece per redirect line, and a final empty piece.
pub proof fn lemma_region_split(es: Seq<Seq<char>>)
    requires
        forall|i: int| 0 <= i < es.len() ==> usable(#[trigger] es[i]),
    ensures
        split_on(seq!['\n'] + lines_of(es), '\n') == seq![Seq::<char>::empty()] + line_texts(es) + seq![Seq::<char>::empty()],
    decreases es.len(),
{
    reveal_strlit("127.0.0.1");
    if es.len() == 0 {
        assert(seq!['\n'] + lines_of(es) =~= seq!['\n']);
        assert(seq!['\n'].drop_last() =~= Seq::<char>::empty());
        assert(split_on(Seq::<char>::empty(), '\n') == seq![Seq::<char>::empty()]);
        assert(split_on(seq!['\n'], '\n') == split_on(Seq::<char>::empty(), '\n').push(
            Seq::<char>::empty(),
        ));
        assert(line_texts(es) =~= Seq::<Seq<char>>::empty());
        assert(seq![Seq::<char>::empty()] + line_texts(es) + seq![
            Seq::<char>::empty(),
        ] =~= seq![Seq::<char>::empty(), Seq::<char>::empty()]);
    } else {
        let pre = es.drop_last();
        assert forall|i: int| 0 <= i < pre.len() implies usable(#[trigger] pre[i]) by {
            assert(pre[i] == es[i]);
        }
        lemma_region_split(pre);
        let t = es.last();
        assert(usable(es[es.len() - 1]));
        let w = line_text(t);
        let x = seq!['\n'] + lines_of(pre);
        assert forall|i: int| 0 <= i < w.len() implies w[i] != '\n' by {
            if i >= 10 {
                assert(w[i] == t[i - 10]);
                assert(!is_ws(t[i - 10]));
            }
        }
        lemma_split_append(x, w, '\n');
        assert(seq!['\n'] + lines_of(es) =~= (x + w).push('\n'));
        assert((x + w).push('\n').drop_last() =~= x + w);
        let f = split_on(x, '\n');
        assert(line_texts(es) =~= line_texts(pre).push(w));
        assert(split_on((x + w).push('\n'), '\n') == split_on(x + w, '\n').push(
            Seq::<char>::empty(),
        ));
        assert(f == seq![Seq::<char>::empty()] + line_texts(pre) + seq![Seq::<char>::empty()]);
        assert(f.last() == Seq::<char>::empty());
        assert(f.last() + w =~= w);
        assert(f.update(f.len() - 1, w).push(Seq::<char>::empty()) =~= seq![Seq::<char>::empty()]
            + line_texts(es) + seq![Seq::<char>::empty()]);
    }
}

/// A run without whitespace is one word.
pub proof fn lemma_word_len_whole(s: Seq<char>)
    requires
        !has_ws(s),
    ensures
        word_len(s) == s.len(),
    decreases s.len(),
{
    if s.len() > 0 {
        assert(!is_ws(s[0]));
        assert forall|i: int| 0 <= i < s.drop_first().len() implies !is_ws(s.drop_first()[i]) by {
            assert(s.drop_first()[i] == s[i + 1]);
        }
        lemma_word_len_whole(s.drop_first());
    }
}

/// A word followed by whitespace ends there.
pub proof fn lemma_word_len_prefix(a: Seq<char>, b: Seq<char>)
    requires
        !has_ws(a),
        b.len() > 0,
        is_ws(b[0]),
    ensures
        word_len(a + b) == a.len(),
    decreases a.len(),
{
    if a.len() == 0 {
        assert(a + b =~= b);
    } else {
        assert((a + b)[0] == a[0]);
        assert((a + b).drop_first() =~= a.drop_first() + b);
        assert forall|i: int| 0 <= i < a.drop_first().len() implies !is_ws(a.drop_first()[i]) by {
            assert(a.drop_first()[i] == a[i + 1]);
        }
        lemma_word_len_prefix(a.drop_first(), b);
    }
}

/// A redirect line that `apply` writes gives back its name.
pub proof fn lemma_line_token(t: Seq<char>)
    requires
        usable(t),
    ensures
        line_token(line_text(t)) == Some(t),
{
    reveal_strlit("127.0.0.1");
    let w = line_text(t);
    assert(!is_ws(t[0]));
    assert(!is_ws(t.last()));
    assert(w.last() == t.last());
    assert(trim_end_ws(w) == w);
    assert(w[0] == '1');
    assert(trim_start_ws(w) == w);
    assert(trim_ws(w) == w);
    assert(w.take(LOOPBACK@.len() as int) =~= LOOPBACK@);
    assert(starts_with(w, LOOPBACK@));
    assert(redirect_line(w));
    assert(!has_ws(LOOPBACK@)) by {
        assert forall|i: int| 0 <= i < LOOPBACK@.len() implies !is_ws(LOOPBACK@[i]) by {}
    }
    assert(w =~= LOOPBACK@ + (seq![' '] + t));
    lemma_word_len_prefix(LOOPBACK@, seq![' '] + t);
    assert(w.skip(9) =~= seq![' '] + t);
    assert((seq![' '] + t).drop_first() =~= t);
    assert(trim_start_ws(seq![' '] + t) == trim_start_ws(t));
    assert(trim_start_ws(t) == t);
    lemma_word_len_whole(t);
    assert(t.take(t.len() as int) =~= t);
    assert(second_word(w) == t);
}

/// The names read back from the region that `apply` writes are the names
/// it wrote.
pub proof fn lemma_tokens_read_back(es: Seq<Seq<char>>)
    requires
        forall|i: int| 0 <= i < es.len() ==> usable(#[trigger] es[i]),
    ensures
        tokens_of(seq![Seq::<char>::empty()] + line_texts(es)) == es,
    decreases es.len(),
{
    reveal_strlit("127.0.0.1");
    reveal_strlit("0.0.0.0");
    let e0 = Seq::<char>::empty();
    assert(trim_end_ws(e0) == e0);
    assert(trim_start_ws(e0) == e0);
    assert(!redirect_line(e0));
    let lines = seq![e0] + line_texts(es);
    if es.len() == 0 {
        assert(lines =~= seq![e0]);
        assert(lines.drop_last() =~= Seq::<Seq<char>>::empty());
        assert(line_token(e0) is None);
        assert(tokens_of(lines) == tokens_of(lines.drop_last()) + Seq::<Seq<char>>::empty());
        assert(tokens_of(lines) =~= es);
    } else {
        let pre = es.drop_last();
        assert forall|i: int| 0 <= i < pre.len() implies usable(#[trigger] pre[i]) by {
            assert(pre[i] == es[i]);
        }
        lemma_tokens_read_back(pre);
        assert(line_texts(es) =~= line_texts(pre).push(line_text(es.last())));
        assert(lines.drop_last() =~= seq![e0] + line_texts(pre));
        assert(usable(es[es.len() - 1]));
        lemma_line_token(es.last());
        assert(lines.last() == line_text(es.last()));
        assert(tokens_of(lines) == tokens_of(lines.drop_last()) + seq![es.last()]);
        assert(pre + seq![es.last()] =~= es);
    }
}

/// The region of content that `apply` wrote is a line break followed by the
/// redirect lines.
pub proof fn lemma_applied_region(c: Seq<char>, ds: Seq<Seq<char>>)
    requires
        ds.len() > 0,
        forall|k: int| !occurs_at(remove_block(c), START_MARKER@, k),
        forall|k: int| !occurs_at(remove_block(c), END_MARKER@, k),
    ensures
        block_region(applied(c, ds)) == Some(seq!['\n'] + lines_of(entries(ds))),
{
    lemma_markers();
    let sm = START_MARKER@;
    let em = END_MARKER@;
    let cl = remove_block(c);
    let a = trim_end_ws(cl);
    lemma_trim_end_prefix(cl);
    let es = entries(ds);
    lemma_entries_usable(ds);
    lemma_lines_lack_end_marker(es);
    let l = lines_of(es);
    let r3 = l + em + seq!['\n'];
    let r2 = sm + seq!['\n'] + r3;
    let r1 = Seq::<char>::empty() + seq!['\n'] + r2;
    let x = a + seq!['\n'] + r1;
    assert(x =~= applied(c, ds));
    let p: int = a.len() as int + 2;
    let q: int = p + sm.len() + 1 + l.len();
    // An occurrence inside `a` is one inside the cleaned content.
    assert forall|pat: Seq<char>, k: int| occurs_at(a, pat, k) implies occurs_at(cl, pat, k) by {
        assert(cl.subrange(k, k + pat.len()) =~= a.subrange(k, k + pat.len()));
    }
    assert(x.subrange(p, p + sm.len() as int) =~= sm);
    assert forall|k: int| 0 <= k < p implies !occurs_at(x, sm, k) by {
        if occurs_at(x, sm, k) {
            lemma_occurs_in_join(a, r1, sm, k);
            if k > a.len() {
                assert(r1.subrange(0, sm.len() as int)[0] == '\n');
            }
        }
    }
    lemma_find_from_at(x, sm, 0, p);
    assert(x.subrange(q, q + em.len() as int) =~= em);
    assert forall|k: int| 0 <= k < q implies !occurs_at(x, em, k) by {
        if occurs_at(x, em, k) {
            lemma_occurs_in_join(a, r1, em, k);
            if k > a.len() {
                let k1 = k - a.len() - 1;
                lemma_occurs_in_join(Seq::<char>::empty(), r2, em, k1);
                let k2 = k1 - 1;
                lemma_occurs_in_join(sm, r3, em, k2);
                if k2 + em.len() <= sm.len() {
                    assert(sm.subrange(k2, k2 + em.len())[0] == em[0]);
                    if k2 == 0 {
                        assert(sm.subrange(k2, k2 + em.len())[2] == em[2]);
                    }
                } else {
                    let k3 = k2 - sm.len() - 1;
                    if k3 + em.len() <= l.len() {
                        assert(l.subrange(k3, k3 + em.len()) =~= r3.subrange(k3, k3 + em.len()));
                        assert(occurs_at(l, em, k3));
                    } else {
                        assert(r3.subrange(k3, k3 + em.len())[l.len() - 1 - k3] == l.last());
                    }
                }
            }
        }
    }
    lemma_find_from_at(x, em, 0, q);
    assert(x.subrange(p + sm.len() as int, q) =~= seq!['\n'] + l);
}

/// What `apply` writes for a non-empty list passes the tamper check for
/// that list, provided the content held no other marker once the old block
/// was removed.
pub proof fn lemma_apply_then_validate(c: Seq<char>, ds: Seq<Seq<char>>)
    requires
        ds.len() > 0,
        forall|k: int| !occurs_at(remove_block(c), START_MARKER@, k),
        forall|k: int| !occurs_at(remove_block(c), END_MARKER@, k),
    ensures
        hosts_valid(applied(c, ds), ds),
{
    let x = applied(c, ds);
    let es = entries(ds);
    lemma_applied_region(c, ds);
    lemma_entries_usable(ds);
    lemma_region_split(es);
    let lines = seq![Seq::<char>::empty()] + line_texts(es);
    assert((lines + seq![Seq::<char>::empty()]).drop_last() =~= lines);
    assert(trim_end_ws(Seq::<char>::empty()) == Seq::<char>::empty());
    assert(trim_start_ws(Seq::<char>::empty()) == Seq::<char>::empty());
    lemma_tokens_read_back(es);
    assert(block_tokens(x) == es);
}

/// Applying an empty list leaves what clearing leaves.
pub proof fn lemma_apply_empty_is_clear(c: Seq<char>)
    ensures
        applied(c, Seq::empty()) == cleared(c),
{
}

/// Content whose block no longer redirects a usable domain of the applied
/// list fails the tamper check; applying the list again passes it.
pub proof fn lemma_tamper_detected_and_repaired(x: Seq<char>, ds: Seq<Seq<char>>, i: int)
    requires
        0 <= i < ds.len(),
        usable(normalized(ds[i])),
        !block_tokens(x).contains(normalized(ds[i])),
    ensures
        !hosts_valid(x, ds),
        (forall|k: int| !occurs_at(remove_block(x), START_MARKER@, k)) && (forall|k: int|
            !occurs_at(remove_block(x), END_MARKER@, k)) ==> hosts_valid(applied(x, ds), ds),
{
    let n = normalized(ds[i]);
    lemma_entries_contain(ds, i);
    assert(entries(ds).to_set().contains(n));
    assert(!block_tokens(x).to_set().contains(n));
    if (forall|k: int| !occurs_at(remove_block(x), START_MARKER@, k)) && (forall|k: int|
        !occurs_at(remove_block(x), END_MARKER@, k)) {
        lemma_apply_then_validate(x, ds);
    }
}

} // verus!

//! What the bot reads out of a public mention: the message without the
//! references to profiles and notes that the mention carries.

use vstd::prelude::*;
use crate::text::{chars_of, is_ws, join, join_strings, split_whitespace, trim, trim_end, trim_start, trim_str, views, words};

verus! {

/// `w` begins with `p`.
pub open spec fn starts_with(w: Seq<char>, p: Seq<char>) -> bool {
    w.len() >= p.len() && w.take(p.len() as int) == p
}

/// A word that refers to a profile or a note (`nostr:npub…`,
/// `nostr:nprofile…`, `nostr:note…`, `npub1…`, `nprofile1…`, `note1…`).
pub open spec fn is_reference(w: Seq<char>) -> bool {
    ||| starts_with(w, "nostr:npub"@)
    ||| starts_with(w, "nostr:nprofile"@)
    ||| starts_with(w, "nostr:note"@)
    ||| starts_with(w, "npub1"@)
    ||| starts_with(w, "nprofile1"@)
    ||| starts_with(w, "note1"@)
}

/// The message of a mention: its words other than references, joined by
/// single spaces and trimmed.
pub open spec fn mention_message(content: Seq<char>) -> Seq<char> {
    trim(join(words(content).filter(|w: Seq<char>| !is_reference(w)), " "@))
}

/// Whether `w` begins with `p`.
pub fn has_prefix(w: &Vec<char>, p: &str) -> (b: bool)
    ensures
        b == starts_with(w@, p@),
{
    let pv = chars_of(p);
    if w.len() < pv.len() {
        return false;
    }
    let mut i: usize = 0;
    while i < pv.len()
        invariant
            i <= pv.len() <= w.len(),
            pv@ == p@,
            forall|j: int| 0 <= j < i ==> w@[j] == pv@[j],
        decreases pv.len() - i,
    {
        if w[i] != pv[i] {
            assert(w@.take(pv.len() as int)[i as int] != p@[i as int]);
            return false;
        }
        i += 1;
    }
    assert(w@.take(pv.len() as int) =~= p@);
    true
}

fn is_reference_word(w: &str) -> (b: bool)
    ensures
        b == is_reference(w@),
{
    let v = chars_of(w);
    has_prefix(&v, "nostr:npub") || has_prefix(&v, "nostr:nprofile") || has_prefix(&v, "nostr:note")
        || has_prefix(&v, "npub1") || has_prefix(&v, "nprofile1") || has_prefix(&v, "note1")
}

/// The message of a mention, without the references it carries.
pub fn mention_text(content: &str) -> (s: String)
    ensures
        s@ == mention_message(content@),
{
    let ghost p = |w: Seq<char>| !is_reference(w);
    let v = chars_of(content);
    let ws = split_whitespace(&v);
    let mut kept: Vec<String> = Vec::new();
    let mut i: usize = 0;
    while i < ws.len()
        invariant
            i <= ws.len(),
            p == (|w: Seq<char>| !is_reference(w)),
            views(kept@) == views(ws@).take(i as int).filter(p),
        decreases ws.len() - i,
    {
        proof {
            assert(views(ws@).take(i + 1) =~= views(ws@).take(i as int).push(ws@[i as int]@));
            views(ws@).take(i as int).lemma_filter_push(ws@[i as int]@, p);
        }
        if !is_reference_word(ws[i].as_str()) {
            let w = crate::text::string_of(ws[i].as_str());
            kept.push(w);
            assert(views(kept@) =~= views(ws@).take(i + 1).filter(p));
        }
        i += 1;
    }
    assert(views(ws@).take(ws.len() as int) =~= views(ws@));
    let joined = join_strings(&kept, " ");
    trim_str(joined.as_str())
}

// ------------------------------------------------------------ law

/// A non-empty run of characters none of which is white space.
pub open spec fn plain(w: Seq<char>) -> bool {
    w.len() > 0 && forall|i: int| 0 <= i < w.len() ==> !is_ws(#[trigger] w[i])
}

proof fn lemma_words_nonempty(s: Seq<char>)
    requires
        s.len() > 0,
        !is_ws(s.last()),
    ensures
        words(s).len() > 0,
    decreases s.len(),
{
    let p = s.drop_last();
    if !(p.len() == 0 || is_ws(p.last())) {
        lemma_words_nonempty(p);
    }
}

proof fn lemma_words_plain(s: Seq<char>)
    ensures
        forall|k: int| 0 <= k < words(s).len() ==> plain(#[trigger] words(s)[k]),
    decreases s.len(),
{
    if s.len() > 0 {
        let p = s.drop_last();
        let c = s.last();
        lemma_words_plain(p);
        let w = words(p);
        if is_ws(c) {
        } else if p.len() == 0 || is_ws(p.last()) {
            assert forall|k: int| 0 <= k < words(s).len() implies plain(#[trigger] words(s)[k]) by {
                if k < w.len() {
                    assert(words(s)[k] == w[k]);
                } else {
                    assert(words(s)[k] == seq![c]);
                }
            }
        } else {
            lemma_words_nonempty(p);
            assert forall|k: int| 0 <= k < words(s).len() implies plain(#[trigger] words(s)[k]) by {
                if k < w.len() - 1 {
                    assert(words(s)[k] == w[k]);
                } else {
                    let x = w.last().push(c);
                    assert(words(s)[k] == x);
                    assert(plain(w[w.len() - 1]));
                    assert forall|i: int| 0 <= i < x.len() implies !is_ws(#[trigger] x[i]) by {
                        if i < x.len() - 1 {
                            assert(x[i] == w.last()[i]);
                        }
                    }
                }
            }
        }
    }
}

proof fn lemma_words_append_word(s: Seq<char>, w: Seq<char>)
    requires
        s.len() == 0 || is_ws(s.last()),
        plain(w),
    ensures
        words(s + w) == words(s).push(w),
    decreases w.len(),
{
    let c = w.last();
    assert(!is_ws(w[w.len() - 1]));
    if w.len() == 1 {
        assert((s + w).drop_last() =~= s);
        assert((s + w).last() == c);
        assert(seq![c] =~= w);
    } else {
        let v = w.drop_last();
        assert forall|i: int| 0 <= i < v.len() implies !is_ws(#[trigger] v[i]) by {
            assert(v[i] == w[i]);
        }
        lemma_words_append_word(s, v);
        assert((s + w).drop_last() =~= s + v);
        assert((s + w).last() == c);
        assert((s + v).last() == v.last());
        assert(!is_ws(w[v.len() - 1]));
        let ws = words(s + v);
        assert(ws == words(s).push(v));
        assert(ws.last() == v);
        assert(v.push(c) =~= w);
        assert(!is_ws((s + v).last()));
        assert(words(s + w) == ws.update(ws.len() - 1, ws.last().push(c)));
        assert(ws.update(ws.len() - 1, ws.last().push(c)) =~= words(s).push(w));
    }
}

proof fn lemma_join_plain(ws: Seq<Seq<char>>)
    requires
        forall|k: int| 0 <= k < ws.len() ==> plain(#[trigger] ws[k]),
    ensures
        words(join(ws, " "@)) == ws,
        ws.len() > 0 ==> join(ws, " "@).len() > 0 && join(ws, " "@)[0] == ws[0][0] && join(ws, " "@).last()
            == ws.last().last(),
        ws.len() == 0 ==> join(ws, " "@).len() == 0,
    decreases ws.len(),
{
    reveal_strlit(" ");
    if ws.len() == 0 {
        assert(words(seq![]) =~= Seq::<Seq<char>>::empty());
    } else if ws.len() == 1 {
        assert(plain(ws[0]));
        lemma_words_append_word(seq![], ws[0]);
        assert(Seq::<char>::empty() + ws[0] =~= ws[0]);
        assert(words(Seq::<char>::empty()) =~= Seq::<Seq<char>>::empty());
        assert(Seq::<Seq<char>>::empty().push(ws[0]) =~= ws);
    } else {
        let d = ws.drop_last();
        assert forall|k: int| 0 <= k < d.len() implies plain(#[trigger] d[k]) by {
            assert(d[k] == ws[k]);
        }
        lemma_join_plain(d);
        let j = join(d, " "@);
        let last = ws.last();
        assert(plain(ws[ws.len() - 1]));
        assert(j + " "@ =~= j.push(' '));
        assert(words(j.push(' ')) == words(j)) by {
            assert(j.push(' ').drop_last() =~= j);
            assert(is_ws(' '));
        }
        lemma_words_append_word(j.push(' '), last);
        assert(join(ws, " "@) == j.push(' ') + last);
        assert(d.push(last) =~= ws);
        assert(ws[0] == d[0]);
    }
}

proof fn lemma_filter_member(s: Seq<Seq<char>>, p: spec_fn(Seq<char>) -> bool, j: int)
    requires
        0 <= j < s.filter(p).len(),
    ensures
        s.contains(s.filter(p)[j]),
    decreases s.len(),
{
    reveal(Seq::filter);
    if s.len() > 0 {
        let t = s.drop_last();
        if p(s.last()) && j == s.filter(p).len() - 1 {
            assert(s[s.len() - 1] == s.filter(p)[j]);
        } else {
            assert(s.filter(p)[j] == t.filter(p)[j]);
            lemma_filter_member(t, p, j);
            let i = choose|i: int| 0 <= i < t.len() && t[i] == t.filter(p)[j];
            assert(s[i] == t[i]);
        }
    }
}

/// The command read out of a mention is made of exactly the mention's words
/// that are not references, in their order, one space apart; so no
/// reference word reaches the command.
pub proof fn law_mention_keeps_other_words(content: Seq<char>)
    ensures
        words(mention_message(content)) == words(content).filter(|w: Seq<char>| !is_reference(w)),
        forall|k: int|
            0 <= k < words(mention_message(content)).len() ==> !is_reference(
                #[trigger] words(mention_message(content))[k],
            ),
{
    let p = |w: Seq<char>| !is_reference(w);
    let all = words(content);
    let kept = all.filter(p);
    lemma_words_plain(content);
    assert forall|k: int| 0 <= k < kept.len() implies plain(#[trigger] kept[k]) by {
        lemma_filter_member(all, p, k);
        let i = choose|i: int| 0 <= i < all.len() && all[i] == kept[k];
        assert(plain(all[i]));
    }
    lemma_join_plain(kept);
    let j = join(kept, " "@);
    if j.len() > 0 {
        assert(plain(kept[0]));
        assert(!is_ws(j[0]));
        assert(plain(kept[kept.len() - 1]));
        assert(!is_ws(kept.last()[kept.last().len() - 1]));
        assert(!is_ws(j.last()));
    }
    assert(trim_start(j) == j);
    assert(trim_end(j) == j);
    assert(trim(j) == j);
    assert forall|k: int| 0 <= k < kept.len() implies !is_reference(#[trigger] kept[k]) by {
        all.lemma_filter_pred(p, k);
    }
}

} // verus!

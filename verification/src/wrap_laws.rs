//! Laws of the word-wrapper, chiefly: wrapping is idempotent. Wrapping a
//! message, rejoining the display lines with newlines, and wrapping the
//! result at the same width reproduces the display lines exactly.

use vstd::prelude::*;
use crate::wrap::{
    avail_cont, avail_first, chop, fill, fill_from, indent_seq, is_wrap_space, line_end,
    lemma_line_end_bounds, lemma_word_end_bounds, split_lines, split_lines_from,
    trim_trailing_empty, word_end, words_from, words_of, wrap_line, wrap_lines_from,
    wrap_message_spec,
};

verus! {

/// A word as the wrapper understands it: at least one character, none of
/// them a space, a tab or a newline.
pub open spec fn word_ok(w: Seq<char>) -> bool {
    w.len() >= 1 && forall|j: int| 0 <= j < w.len() ==> !is_wrap_space(#[trigger] w[j]) && w[j]
        != '\n'
}

/// No character of the line is a newline.
pub open spec fn no_newline(s: Seq<char>) -> bool {
    forall|j: int| 0 <= j < s.len() ==> s[j] != '\n'
}

/// The words joined back together with single spaces, from `i` on.
pub open spec fn sj_from(ws: Seq<Seq<char>>, i: int) -> Seq<char>
    decreases ws.len() - i,
{
    if i < 0 || i >= ws.len() {
        Seq::empty()
    } else if i == ws.len() - 1 {
        ws[i]
    } else {
        ws[i] + seq![' '] + sj_from(ws, i + 1)
    }
}

/// The words joined with single spaces.
pub open spec fn sj(ws: Seq<Seq<char>>) -> Seq<char> {
    sj_from(ws, 0)
}

/// A normalized chunk: it is the single-space join of its own words.
pub open spec fn normalized(c: Seq<char>) -> bool {
    words_of(c).len() >= 1 && c == sj(words_of(c))
}

/// Scanning for a word end only looks at the characters from the start
/// position on.
pub proof fn lemma_word_end_skip(s: Seq<char>, j: int, i: int)
    requires
        0 <= j <= i <= s.len(),
    ensures
        word_end(s, i) == word_end(s.skip(j), i - j) + j,
    decreases s.len() - i,
{
    if i >= s.len() || is_wrap_space(s[i]) {
        assert(i - j >= s.skip(j).len() || is_wrap_space(s.skip(j)[i - j]));
    } else {
        assert(!is_wrap_space(s.skip(j)[i - j]));
        lemma_word_end_skip(s, j, i + 1);
    }
}

/// The words found from position `i` are the words of the tail from `i`.
pub proof fn lemma_words_from_skip(s: Seq<char>, j: int, i: int)
    requires
        0 <= j <= i <= s.len(),
    ensures
        words_from(s, i) == words_from(s.skip(j), i - j),
    decreases s.len() - i,
{
    if i >= s.len() {
        assert(i - j >= s.skip(j).len());
    } else if is_wrap_space(s[i]) {
        assert(is_wrap_space(s.skip(j)[i - j]));
        lemma_words_from_skip(s, j, i + 1);
    } else {
        assert(!is_wrap_space(s.skip(j)[i - j]));
        lemma_word_end_skip(s, j, i);
        lemma_word_end_bounds(s, i);
        assert(s.subrange(i, word_end(s, i)) =~= s.skip(j).subrange(
            i - j,
            word_end(s.skip(j), i - j),
        ));
        lemma_words_from_skip(s, j, word_end(s, i));
        assert(words_from(s, i) =~= words_from(s.skip(j), i - j));
    }
}

/// A single word is its own word list.
pub proof fn lemma_words_of_word(w: Seq<char>)
    requires
        word_ok(w),
    ensures
        words_of(w) == seq![w],
{
    assert(word_end(w, 0) == w.len()) by {
        lemma_word_end_all(w, 0);
    }
    assert(w.subrange(0, w.len() as int) =~= w);
    assert(words_from(w, word_end(w, 0)) =~= Seq::<Seq<char>>::empty());
    assert(words_of(w) =~= seq![w]);
}

/// In a line of only word characters, the word runs to the end.
pub proof fn lemma_word_end_all(w: Seq<char>, i: int)
    requires
        0 <= i <= w.len(),
        forall|j: int| 0 <= j < w.len() ==> !is_wrap_space(#[trigger] w[j]),
    ensures
        word_end(w, i) == w.len(),
    decreases w.len() - i,
{
    if i < w.len() {
        lemma_word_end_all(w, i + 1);
    }
}

/// The words of a single-space join are the words themselves.
pub proof fn lemma_words_of_sj(ws: Seq<Seq<char>>, i: int)
    requires
        0 <= i <= ws.len(),
        forall|k: int| 0 <= k < ws.len() ==> word_ok(#[trigger] ws[k]),
    ensures
        words_of(sj_from(ws, i)) == ws.skip(i),
    decreases ws.len() - i,
{
    if i >= ws.len() {
        assert(sj_from(ws, i) =~= Seq::<char>::empty());
        assert(words_of(sj_from(ws, i)) =~= ws.skip(i));
    } else if i == ws.len() - 1 {
        lemma_words_of_word(ws[i]);
        assert(seq![ws[i]] =~= ws.skip(i));
    } else {
        let s = sj_from(ws, i);
        let w = ws[i];
        let rest = sj_from(ws, i + 1);
        assert(s == w + seq![' '] + rest);
        assert(forall|j: int| 0 <= j < w.len() ==> s[j] == w[j]);
        assert(word_end(s, 0) == w.len()) by {
            lemma_word_end_prefix(s, w, 0);
        }
        assert(s.subrange(0, w.len() as int) =~= w);
        assert(!is_wrap_space(s[0]));
        lemma_words_from_skip(s, w.len() as int + 1, w.len() as int + 1);
        assert(s.skip(w.len() as int + 1) =~= rest);
        assert(words_from(s, w.len() as int) == words_from(s, w.len() as int + 1)) by {
            assert(is_wrap_space(s[w.len() as int]));
        }
        lemma_words_of_sj(ws, i + 1);
        assert(words_of(s) =~= seq![w] + ws.skip(i + 1));
        assert(seq![w] + ws.skip(i + 1) =~= ws.skip(i));
    }
}

/// Within the leading word of a longer line, the word scan stops exactly at
/// the word's end.
pub proof fn lemma_word_end_prefix(s: Seq<char>, w: Seq<char>, i: int)
    requires
        0 <= i <= w.len(),
        w.len() < s.len(),
        forall|j: int| 0 <= j < w.len() ==> s[j] == w[j],
        word_ok(w),
        is_wrap_space(s[w.len() as int]),
    ensures
        word_end(s, i) == w.len(),
    decreases w.len() - i,
{
    if i < w.len() {
        assert(!is_wrap_space(s[i]));
        lemma_word_end_prefix(s, w, i + 1);
    }
}

/// Characters inside a word run are word characters.
pub proof fn lemma_word_end_chars(s: Seq<char>, i: int)
    requires
        0 <= i <= s.len(),
    ensures
        forall|j: int| i <= j < word_end(s, i) ==> !is_wrap_space(#[trigger] s[j]),
    decreases s.len() - i,
{
    if i >= s.len() || is_wrap_space(s[i]) {
    } else {
        lemma_word_end_chars(s, i + 1);
    }
}

/// Every word of a newline-free line is a word.
pub proof fn lemma_words_ok(s: Seq<char>, i: int)
    requires
        0 <= i <= s.len(),
        no_newline(s),
    ensures
        forall|k: int|
            0 <= k < words_from(s, i).len() ==> word_ok(#[trigger] words_from(s, i)[k]),
    decreases s.len() - i,
{
    if i >= s.len() {
    } else if is_wrap_space(s[i]) {
        lemma_words_ok(s, i + 1);
        assert(words_from(s, i) == words_from(s, i + 1));
        assert forall|k: int| 0 <= k < words_from(s, i).len() implies word_ok(
            #[trigger] words_from(s, i)[k],
        ) by {
            assert(word_ok(words_from(s, i + 1)[k]));
        }
    } else {
        lemma_word_end_bounds(s, i);
        lemma_word_end_chars(s, i);
        lemma_words_ok(s, word_end(s, i));
        let we = word_end(s, i);
        let w = s.subrange(i, we);
        assert forall|j: int| 0 <= j < w.len() implies !is_wrap_space(#[trigger] w[j]) && w[j]
            != '\n' by {
            assert(w[j] == s[i + j]);
        }
        assert(word_ok(w));
        assert(words_from(s, i) == seq![w] + words_from(s, we));
        assert forall|k: int| 0 <= k < words_from(s, i).len() implies word_ok(
            #[trigger] words_from(s, i)[k],
        ) by {
            if k == 0 {
                assert(words_from(s, i)[0] == w);
            } else {
                assert(words_from(s, i)[k] == words_from(s, we)[k - 1]);
            }
        }
    }
}

/// A join is at least as long as its first word.
pub proof fn lemma_sj_len_lower(ws: Seq<Seq<char>>, i: int)
    requires
        0 <= i < ws.len(),
    ensures
        sj_from(ws, i).len() >= ws[i].len(),
{
}

/// Joining one more word at the end extends the join by a space and the
/// word.
pub proof fn lemma_sj_push(ws: Seq<Seq<char>>, w: Seq<char>, i: int)
    requires
        0 <= i <= ws.len(),
    ensures
        i < ws.len() ==> sj_from(ws.push(w), i) == sj_from(ws, i) + seq![' '] + w,
        i == ws.len() ==> sj_from(ws.push(w), i) == w,
    decreases ws.len() - i,
{
    let wsp = ws.push(w);
    if i == ws.len() {
        assert(sj_from(wsp, i) == wsp[i]);
    } else if i == ws.len() - 1 {
        lemma_sj_push(ws, w, i + 1);
        assert(sj_from(wsp, i) == wsp[i] + seq![' '] + sj_from(wsp, i + 1));
        assert(sj_from(wsp, i) =~= sj_from(ws, i) + seq![' '] + w);
    } else {
        lemma_sj_push(ws, w, i + 1);
        assert(sj_from(wsp, i) == wsp[i] + seq![' '] + sj_from(wsp, i + 1));
        assert(sj_from(wsp, i) =~= sj_from(ws, i) + seq![' '] + w);
    }
}

/// Every piece of a force-broken word is a word within the piece widths,
/// and a word too wide for its first budget breaks into at least two.
pub proof fn lemma_chop_wf(w: Seq<char>, first: nat, rest: nat)
    requires
        word_ok(w),
        first >= 1,
        rest >= 1,
    ensures
        chop(w, first, rest).len() >= 1,
        forall|i: int|
            0 <= i < chop(w, first, rest).len() ==> word_ok(#[trigger] chop(w, first, rest)[i]),
        chop(w, first, rest)[0].len() <= first,
        forall|i: int|
            1 <= i < chop(w, first, rest).len() ==> (#[trigger] chop(w, first, rest)[i]).len()
                <= rest,
        w.len() > first ==> chop(w, first, rest).len() >= 2,
    decreases w.len(),
{
    if w.len() <= first {
    } else {
        assert(word_ok(w.take(first as int)));
        assert(word_ok(w.skip(first as int)));
        lemma_chop_wf(w.skip(first as int), rest, rest);
        let tail = chop(w.skip(first as int), rest, rest);
        assert forall|i: int| 1 <= i < chop(w, first, rest).len() implies (#[trigger] chop(
            w,
            first,
            rest,
        )[i]).len() <= rest by {
            assert(chop(w, first, rest)[i] == tail[i - 1]);
            if i == 1 {
                assert(tail[0].len() <= rest);
            }
        }
        assert forall|i: int| 0 <= i < chop(w, first, rest).len() implies word_ok(
            #[trigger] chop(w, first, rest)[i],
        ) by {
            if i >= 1 {
                assert(chop(w, first, rest)[i] == tail[i - 1]);
            }
        }
    }
}

/// When everything left fits on the open chunk, greedy filling closes with
/// exactly one chunk: the current text joined with all remaining words.
pub proof fn lemma_fill_tail(ws: Seq<Seq<char>>, wi: int, cur: Seq<char>, acur: nat, a: nat)
    requires
        0 <= wi <= ws.len(),
        forall|k: int| 0 <= k < ws.len() ==> word_ok(#[trigger] ws[k]),
        cur.len() >= 1,
        acur >= 1,
        a >= 1,
        wi < ws.len() ==> cur.len() + 1 + sj_from(ws, wi).len() <= acur,
        cur.len() <= acur,
    ensures
        wi < ws.len() ==> fill_from(ws, wi, cur, acur, a) == seq![
            cur + seq![' '] + sj_from(ws, wi),
        ],
        wi == ws.len() ==> fill_from(ws, wi, cur, acur, a) == seq![cur],
    decreases ws.len() - wi,
{
    if wi >= ws.len() {
    } else {
        let w = ws[wi];
        lemma_sj_len_lower(ws, wi);
        assert(cur.len() + 1 + w.len() <= acur);
        let cur2 = cur + seq![' '] + w;
        lemma_fill_tail(ws, wi + 1, cur2, acur, a);
        if wi == ws.len() - 1 {
            assert(fill_from(ws, wi, cur, acur, a) == seq![cur2]);
            assert(cur2 =~= cur + seq![' '] + sj_from(ws, wi));
        } else {
            assert(cur2.len() + 1 + sj_from(ws, wi + 1).len() <= acur);
            assert(fill_from(ws, wi, cur, acur, a) == seq![
                cur2 + seq![' '] + sj_from(ws, wi + 1),
            ]);
            assert(cur2 + seq![' '] + sj_from(ws, wi + 1) =~= cur + seq![' '] + sj_from(
                ws,
                wi,
            ));
        }
    }
}

/// Filling the words of a normalized chunk that fits reproduces the chunk.
pub proof fn lemma_fill_reproduces(c: Seq<char>, acur: nat, a: nat)
    requires
        normalized(c),
        no_newline(c),
        c.len() <= acur,
        acur >= 1,
        a >= 1,
    ensures
        fill(words_of(c), acur, a) == seq![c],
{
    let ws = words_of(c);
    lemma_words_ok(c, 0);
    assert(forall|k: int| 0 <= k < ws.len() ==> word_ok(#[trigger] ws[k]));
    lemma_sj_len_lower(ws, 0);
    assert(ws[0].len() <= c.len());
    assert(fill_from(ws, 0, Seq::empty(), acur, a) == fill_from(ws, 1, ws[0], acur, a));
    if ws.len() == 1 {
        lemma_fill_tail(ws, 1, ws[0], acur, a);
        assert(sj_from(ws, 0) == ws[0]);
    } else {
        assert(sj_from(ws, 0) == ws[0] + seq![' '] + sj_from(ws, 1));
        assert(ws[0].len() + 1 + sj_from(ws, 1).len() == c.len());
        lemma_fill_tail(ws, 1, ws[0], acur, a);
        assert(ws[0] + seq![' '] + sj_from(ws, 1) == c);
    }
}

/// Every chunk the greedy fill produces is a normalized, newline-free piece
/// of text: the first within the open chunk's budget, the rest within the
/// continuation budget.
pub proof fn lemma_fill_wf(ws: Seq<Seq<char>>, wi: int, cur: Seq<char>, acur: nat, a: nat)
    requires
        0 <= wi,
        forall|k: int| 0 <= k < ws.len() ==> word_ok(#[trigger] ws[k]),
        acur >= 1,
        a >= 1,
        cur.len() == 0 || (normalized(cur) && no_newline(cur) && cur.len() <= acur),
    ensures
        forall|i: int|
            0 <= i < fill_from(ws, wi, cur, acur, a).len() ==> {
                let c = #[trigger] fill_from(ws, wi, cur, acur, a)[i];
                normalized(c) && no_newline(c) && c.len() <= (if i == 0 {
                    acur as int
                } else {
                    a as int
                })
            },
    decreases ws.len() - wi, cur.len(),
{
    let out = fill_from(ws, wi, cur, acur, a);
    if wi >= ws.len() {
        if cur.len() == 0 {
        } else {
            assert(out == seq![cur]);
            assert(out[0] == cur);
        }
    } else {
        let w = ws[wi];
        assert(word_ok(w));
        if cur.len() == 0 {
            if w.len() <= acur {
                lemma_words_of_word(w);
                assert(sj(seq![w]) == w);
                assert(normalized(w));
                lemma_fill_wf(ws, wi + 1, w, acur, a);
                let sub = fill_from(ws, wi + 1, w, acur, a);
                assert(out == sub);
                assert forall|i: int| 0 <= i < out.len() implies {
                    let c = #[trigger] out[i];
                    normalized(c) && no_newline(c) && c.len() <= (if i == 0 {
                        acur as int
                    } else {
                        a as int
                    })
                } by {
                    assert(out[i] == sub[i]);
                }
            } else {
                let pieces = chop(w, acur, a);
                lemma_chop_wf(w, acur, a);
                let last = pieces.last();
                lemma_words_of_word(last);
                assert(sj(seq![last]) == last);
                assert(normalized(last));
                assert(last.len() <= a);
                lemma_fill_wf(ws, wi + 1, last, a, a);
                let sub = fill_from(ws, wi + 1, last, a, a);
                assert(out == pieces.drop_last() + sub);
                assert forall|i: int| 0 <= i < out.len() implies {
                    let c = #[trigger] out[i];
                    normalized(c) && no_newline(c) && c.len() <= (if i == 0 {
                        acur as int
                    } else {
                        a as int
                    })
                } by {
                    if i < pieces.len() - 1 {
                        assert(out[i] == pieces[i]);
                        lemma_words_of_word(pieces[i]);
                        assert(sj(seq![pieces[i]]) == pieces[i]);
                    } else {
                        assert(out[i] == sub[i - (pieces.len() - 1)]);
                        assert(i >= 1);
                    }
                }
            }
        } else {
            if cur.len() + 1 + w.len() <= acur {
                let cur2 = cur + seq![' '] + w;
                let ws0 = words_of(cur);
                lemma_words_ok(cur, 0);
                lemma_sj_push(ws0, w, 0);
                assert(cur2 == sj(ws0.push(w)));
                lemma_words_of_sj(ws0.push(w), 0);
                assert(ws0.push(w).skip(0) =~= ws0.push(w));
                assert(words_of(cur2) == ws0.push(w));
                assert(normalized(cur2));
                lemma_fill_wf(ws, wi + 1, cur2, acur, a);
                let sub = fill_from(ws, wi + 1, cur2, acur, a);
                assert(out == sub);
                assert forall|i: int| 0 <= i < out.len() implies {
                    let c = #[trigger] out[i];
                    normalized(c) && no_newline(c) && c.len() <= (if i == 0 {
                        acur as int
                    } else {
                        a as int
                    })
                } by {
                    assert(out[i] == sub[i]);
                }
            } else {
                lemma_fill_wf(ws, wi, Seq::empty(), a, a);
                let sub = fill_from(ws, wi, Seq::empty(), a, a);
                assert(out == seq![cur] + sub);
                assert forall|i: int| 0 <= i < out.len() implies {
                    let c = #[trigger] out[i];
                    normalized(c) && no_newline(c) && c.len() <= (if i == 0 {
                        acur as int
                    } else {
                        a as int
                    })
                } by {
                    if i >= 1 {
                        assert(out[i] == sub[i - 1]);
                    }
                }
            }
        }
    }
}

/// A display line as the first line may look: empty, or a bare normalized
/// chunk within the first-line budget.
pub open spec fn line_ok_first(l: Seq<char>, fa: nat) -> bool {
    l.len() == 0 || (normalized(l) && no_newline(l) && l.len() <= fa)
}

/// A display line as every later line may look: empty, or the indent in
/// front of a normalized chunk within the continuation budget.
pub open spec fn line_ok_cont(l: Seq<char>, ca: nat) -> bool {
    l.len() == 0 || (l.len() > 4 && l.take(4) == indent_seq() && normalized(l.skip(4))
        && no_newline(l) && l.skip(4).len() <= ca)
}

/// A line with no words wraps to one empty display line.
pub proof fn lemma_wrap_line_empty(line: Seq<char>, fa: nat, ca: nat, bare: bool)
    requires
        words_of(line).len() == 0,
        fa >= 1,
        ca >= 1,
    ensures
        wrap_line(line, fa, ca, bare) == seq![Seq::<char>::empty()],
{
    assert(fill(words_of(line), fa, ca) =~= Seq::<Seq<char>>::empty());
}

/// A bare normalized chunk that fits rewraps to itself.
pub proof fn lemma_wrap_line_bare(c: Seq<char>, fa: nat, ca: nat)
    requires
        normalized(c),
        no_newline(c),
        c.len() <= fa,
        fa >= 1,
        ca >= 1,
    ensures
        wrap_line(c, fa, ca, true) == seq![c],
{
    lemma_fill_reproduces(c, fa, ca);
    assert(wrap_line(c, fa, ca, true) =~= seq![c]);
}

/// An indented normalized chunk that fits rewraps to itself.
pub proof fn lemma_wrap_line_indent(c: Seq<char>, ca: nat)
    requires
        normalized(c),
        no_newline(c),
        c.len() <= ca,
        ca >= 1,
    ensures
        wrap_line(indent_seq() + c, ca, ca, false) == seq![indent_seq() + c],
{
    let l = indent_seq() + c;
    assert(is_wrap_space(l[0]) && is_wrap_space(l[1]) && is_wrap_space(l[2]) && is_wrap_space(
        l[3],
    ));
    assert(words_from(l, 0) == words_from(l, 1));
    assert(words_from(l, 1) == words_from(l, 2));
    assert(words_from(l, 2) == words_from(l, 3));
    assert(words_from(l, 3) == words_from(l, 4));
    lemma_words_from_skip(l, 4, 4);
    assert(l.skip(4) =~= c);
    assert(words_of(l) == words_of(c));
    lemma_fill_reproduces(c, ca, ca);
    assert(fill(words_of(l), ca, ca) == seq![c]);
    assert(wrap_line(l, ca, ca, false) =~= seq![indent_seq() + c]);
}

/// Every display line a wrapped source line yields has the right shape.
pub proof fn lemma_wrap_line_shape(line: Seq<char>, fa: nat, ca: nat, bare: bool)
    requires
        no_newline(line),
        fa >= 1,
        ca >= 1,
    ensures
        wrap_line(line, fa, ca, bare).len() >= 1,
        bare ==> line_ok_first(wrap_line(line, fa, ca, bare)[0], fa),
        !bare ==> line_ok_cont(wrap_line(line, fa, ca, bare)[0], fa),
        forall|i: int|
            1 <= i < wrap_line(line, fa, ca, bare).len() ==> line_ok_cont(
                #[trigger] wrap_line(line, fa, ca, bare)[i],
                ca,
            ),
{
    let ws = words_of(line);
    lemma_words_ok(line, 0);
    lemma_fill_wf(ws, 0, Seq::empty(), fa, ca);
    let chunks = fill(ws, fa, ca);
    let out = wrap_line(line, fa, ca, bare);
    if chunks.len() == 0 {
        assert(out[0].len() == 0);
    } else {
        assert forall|i: int| 0 <= i < out.len() implies {
            &&& i == 0 && bare ==> line_ok_first(out[i], fa)
            &&& i == 0 && !bare ==> line_ok_cont(out[i], fa)
            &&& i >= 1 ==> line_ok_cont(out[i], ca)
        } by {
            assert(normalized(chunks[i]) && no_newline(chunks[i]));
            assert(chunks[i].len() <= (if i == 0 {
                fa as int
            } else {
                ca as int
            }));
            if i == 0 && bare {
                assert(out[0] == chunks[0]);
            } else {
                let l = out[i];
                assert(l == indent_seq() + chunks[i]);
                assert(l.take(4) =~= indent_seq());
                assert(l.skip(4) =~= chunks[i]);
                assert(l.len() > 4);
                assert(no_newline(l));
            }
        }
    }
}

/// The display lines joined back into one text, newline-separated.
pub open spec fn jn_from(lines: Seq<Seq<char>>, i: int) -> Seq<char>
    decreases lines.len() - i,
{
    if i < 0 || i >= lines.len() {
        Seq::empty()
    } else if i == lines.len() - 1 {
        lines[i]
    } else {
        lines[i] + seq!['\n'] + jn_from(lines, i + 1)
    }
}

/// The display lines joined with newlines.
pub open spec fn join_lines(lines: Seq<Seq<char>>) -> Seq<char> {
    jn_from(lines, 0)
}

/// In a newline-free text, a line runs to the end.
pub proof fn lemma_line_end_all(s: Seq<char>, i: int)
    requires
        0 <= i <= s.len(),
        no_newline(s),
    ensures
        line_end(s, i) == s.len(),
    decreases s.len() - i,
{
    if i < s.len() {
        lemma_line_end_all(s, i + 1);
    }
}

/// Within a newline-free leading line, the line scan stops at its end.
pub proof fn lemma_line_end_prefix(s: Seq<char>, l: Seq<char>, i: int)
    requires
        0 <= i <= l.len(),
        l.len() < s.len(),
        forall|j: int| 0 <= j < l.len() ==> s[j] == l[j],
        no_newline(l),
        s[l.len() as int] == '\n',
    ensures
        line_end(s, i) == l.len(),
    decreases l.len() - i,
{
    if i < l.len() {
        assert(s[i] != '\n');
        lemma_line_end_prefix(s, l, i + 1);
    }
}

/// Scanning for a line end only looks at the characters from the start on.
pub proof fn lemma_line_end_skip(s: Seq<char>, j: int, i: int)
    requires
        0 <= j <= i <= s.len(),
    ensures
        line_end(s, i) == line_end(s.skip(j), i - j) + j,
    decreases s.len() - i,
{
    if i >= s.len() || s[i] == '\n' {
        assert(i - j >= s.skip(j).len() || s.skip(j)[i - j] == '\n');
    } else {
        assert(s.skip(j)[i - j] != '\n');
        lemma_line_end_skip(s, j, i + 1);
    }
}

/// The lines found from a position are the lines of the tail from there.
pub proof fn lemma_split_lines_skip(s: Seq<char>, j: int)
    requires
        0 <= j <= s.len(),
    ensures
        split_lines_from(s, j) == split_lines_from(s.skip(j), 0),
    decreases s.len() - j,
{
    lemma_line_end_bounds(s, j);
    lemma_line_end_skip(s, j, j);
    let e = line_end(s, j);
    assert(s.subrange(j, e) =~= s.skip(j).subrange(0, e - j));
    if e >= s.len() {
        assert(split_lines_from(s, j) =~= split_lines_from(s.skip(j), 0));
    } else {
        lemma_split_lines_skip(s, e + 1);
        lemma_line_end_skip(s, e + 1, e + 1);
        assert(s.skip(e + 1) =~= s.skip(j).skip(e - j + 1));
        lemma_split_lines_skip(s.skip(j), e - j + 1);
        assert(split_lines_from(s, j) =~= split_lines_from(s.skip(j), 0));
    }
}

/// Splitting a newline join recovers the lines.
pub proof fn lemma_split_join(lines: Seq<Seq<char>>, i: int)
    requires
        0 <= i < lines.len(),
        forall|k: int| 0 <= k < lines.len() ==> no_newline(#[trigger] lines[k]),
    ensures
        split_lines(jn_from(lines, i)) == lines.skip(i),
    decreases lines.len() - i,
{
    let s = jn_from(lines, i);
    let l = lines[i];
    if i == lines.len() - 1 {
        assert(s == l);
        lemma_line_end_all(s, 0);
        assert(s.subrange(0, s.len() as int) =~= l);
        assert(split_lines(s) =~= lines.skip(i));
    } else {
        let rest = jn_from(lines, i + 1);
        assert(s == l + seq!['\n'] + rest);
        assert(forall|j: int| 0 <= j < l.len() ==> s[j] == l[j]);
        assert(s[l.len() as int] == '\n');
        lemma_line_end_prefix(s, l, 0);
        assert(line_end(s, 0) == l.len());
        assert(s.subrange(0, l.len() as int) =~= l);
        lemma_split_lines_skip(s, l.len() as int + 1);
        assert(s.skip(l.len() as int + 1) =~= rest);
        lemma_split_join(lines, i + 1);
        assert(split_lines(s) =~= seq![l] + lines.skip(i + 1));
        assert(seq![l] + lines.skip(i + 1) =~= lines.skip(i));
    }
}

/// Every source line of a split is newline-free.
pub proof fn lemma_split_no_newline(s: Seq<char>, i: int)
    requires
        0 <= i <= s.len(),
    ensures
        forall|k: int|
            0 <= k < split_lines_from(s, i).len() ==> no_newline(
                #[trigger] split_lines_from(s, i)[k],
            ),
    decreases s.len() - i,
{
    lemma_line_end_bounds(s, i);
    let e = line_end(s, i);
    assert(no_newline(s.subrange(i, e)));
    if e >= s.len() {
    } else {
        lemma_split_no_newline(s, e + 1);
        assert forall|k: int| 0 <= k < split_lines_from(s, i).len() implies no_newline(
            #[trigger] split_lines_from(s, i)[k],
        ) by {
            if k >= 1 {
                assert(split_lines_from(s, i)[k] == split_lines_from(s, e + 1)[k - 1]);
            }
        }
    }
}

/// Trimming keeps a prefix of the lines.
pub proof fn lemma_trim_prefix(lines: Seq<Seq<char>>)
    ensures
        trim_trailing_empty(lines).len() <= lines.len(),
        forall|i: int|
            0 <= i < trim_trailing_empty(lines).len() ==> #[trigger] trim_trailing_empty(
                lines,
            )[i] == lines[i],
        trim_trailing_empty(lines).len() > 0 ==> trim_trailing_empty(lines).last().len() > 0,
    decreases lines.len(),
{
    if lines.len() == 0 {
    } else if lines.last().len() == 0 {
        lemma_trim_prefix(lines.drop_last());
    } else {
    }
}

/// Trimming twice is trimming once.
pub proof fn lemma_trim_idempotent(lines: Seq<Seq<char>>)
    ensures
        trim_trailing_empty(trim_trailing_empty(lines)) == trim_trailing_empty(lines),
{
    lemma_trim_prefix(lines);
}

/// Every display line of a wrapped message has the right shape: the first
/// may be bare within the first-line budget, all others are empty or
/// indented chunks within the continuation budget.
pub proof fn lemma_wrap_lines_shape(lines: Seq<Seq<char>>, li: int, fa: nat, ca: nat)
    requires
        0 <= li <= lines.len(),
        forall|k: int| 0 <= k < lines.len() ==> no_newline(#[trigger] lines[k]),
        fa >= 1,
        ca >= 1,
    ensures
        li < lines.len() ==> wrap_lines_from(lines, li, fa, ca).len() >= 1,
        forall|i: int|
            0 <= i < wrap_lines_from(lines, li, fa, ca).len() ==> if li == 0 && i == 0 {
                line_ok_first(#[trigger] wrap_lines_from(lines, li, fa, ca)[i], fa)
            } else {
                line_ok_cont(wrap_lines_from(lines, li, fa, ca)[i], ca)
            },
    decreases lines.len() - li,
{
    if li >= lines.len() {
    } else {
        let budget = if li == 0 {
            fa
        } else {
            ca
        };
        let head = wrap_line(lines[li], budget, ca, li == 0);
        let rest = wrap_lines_from(lines, li + 1, fa, ca);
        let out = wrap_lines_from(lines, li, fa, ca);
        lemma_wrap_line_shape(lines[li], budget, ca, li == 0);
        lemma_wrap_lines_shape(lines, li + 1, fa, ca);
        assert(out == head + rest);
        assert forall|i: int| 0 <= i < out.len() implies if li == 0 && i == 0 {
            line_ok_first(#[trigger] out[i], fa)
        } else {
            line_ok_cont(out[i], ca)
        } by {
            if i < head.len() {
                assert(out[i] == head[i]);
                if i == 0 && li != 0 {
                    assert(line_ok_cont(head[0], ca)) by {
                        assert(line_ok_cont(head[0], budget));
                    }
                }
            } else {
                assert(out[i] == rest[i - head.len()]);
                assert(line_ok_cont(rest[i - head.len()], ca));
            }
        }
    }
}

/// Wrapping display lines that already have the right shape reproduces
/// them: each becomes exactly one display line again.
pub proof fn lemma_rewrap_lines(lines: Seq<Seq<char>>, i: int, fa: nat, ca: nat)
    requires
        0 <= i <= lines.len(),
        lines.len() >= 1 ==> line_ok_first(lines[0], fa),
        forall|k: int| 1 <= k < lines.len() ==> line_ok_cont(#[trigger] lines[k], ca),
        fa >= 1,
        ca >= 1,
    ensures
        wrap_lines_from(lines, i, fa, ca) == lines.skip(i),
    decreases lines.len() - i,
{
    if i >= lines.len() {
        assert(wrap_lines_from(lines, i, fa, ca) =~= lines.skip(i));
    } else {
        let budget = if i == 0 {
            fa
        } else {
            ca
        };
        let l = lines[i];
        lemma_rewrap_lines(lines, i + 1, fa, ca);
        if l.len() == 0 {
            assert(words_of(l).len() == 0);
            lemma_wrap_line_empty(l, budget, ca, i == 0);
            assert(wrap_line(l, budget, ca, i == 0) =~~= seq![l]);
        } else if i == 0 {
            lemma_wrap_line_bare(l, fa, ca);
        } else {
            let c = l.skip(4);
            assert(l =~= indent_seq() + c);
            lemma_wrap_line_indent(c, ca);
            assert(wrap_line(l, ca, ca, false) == seq![indent_seq() + c]);
            assert(wrap_line(l, ca, ca, false) =~= seq![l]);
        }
        assert(wrap_lines_from(lines, i, fa, ca) =~= seq![l] + lines.skip(i + 1));
        assert(seq![l] + lines.skip(i + 1) =~= lines.skip(i));
    }
}

/// Wrapping is idempotent: wrapping a message, rejoining its display lines
/// with newlines, and wrapping the result at the same width and for the
/// same sender yields the same display lines again.
pub proof fn lemma_wrap_idempotent(sender_len: nat, raw: Seq<char>, width: nat)
    ensures
        wrap_message_spec(
            sender_len,
            join_lines(wrap_message_spec(sender_len, raw, width)),
            width,
        ) == wrap_message_spec(sender_len, raw, width),
{
    let fa = avail_first(sender_len, width);
    let ca = avail_cont(width);
    assert(fa >= 1 && ca >= 1);
    let src = split_lines(raw);
    let u = wrap_lines_from(src, 0, fa, ca);
    let l = wrap_message_spec(sender_len, raw, width);
    assert(l == trim_trailing_empty(u));
    lemma_split_no_newline(raw, 0);
    lemma_wrap_lines_shape(src, 0, fa, ca);
    lemma_trim_prefix(u);
    if l.len() == 0 {
        assert(join_lines(l) =~= Seq::<char>::empty());
        let e = Seq::<char>::empty();
        lemma_line_end_all(e, 0);
        assert(split_lines(e) =~~= seq![Seq::<char>::empty()]);
        assert(words_of(Seq::<char>::empty()).len() == 0);
        lemma_wrap_line_empty(Seq::<char>::empty(), fa, ca, true);
        assert(wrap_lines_from(split_lines(e), 1, fa, ca) =~= Seq::<Seq<char>>::empty());
        assert(wrap_lines_from(split_lines(e), 0, fa, ca) =~~= seq![Seq::<char>::empty()]);
        let one_empty = seq![Seq::<char>::empty()];
        assert(one_empty.drop_last() =~= Seq::<Seq<char>>::empty());
        assert(trim_trailing_empty(Seq::<Seq<char>>::empty()) =~= Seq::<Seq<char>>::empty());
        assert(trim_trailing_empty(one_empty) =~= Seq::<Seq<char>>::empty());
        assert(wrap_message_spec(sender_len, join_lines(l), width) =~= l);
    } else {
        assert(line_ok_first(l[0], fa)) by {
            assert(l[0] == u[0]);
        }
        assert forall|k: int| 1 <= k < l.len() implies line_ok_cont(#[trigger] l[k], ca) by {
            assert(l[k] == u[k]);
        }
        assert forall|k: int| 0 <= k < l.len() implies no_newline(#[trigger] l[k]) by {
            if l[k].len() == 0 {
            } else if k == 0 {
                assert(line_ok_first(l[0], fa));
            } else {
                assert(line_ok_cont(l[k], ca));
            }
        }
        lemma_split_join(l, 0);
        assert(l.skip(0) =~= l);
        assert(split_lines(join_lines(l)) == l);
        lemma_rewrap_lines(l, 0, fa, ca);
        assert(wrap_lines_from(l, 0, fa, ca) == l);
        lemma_trim_idempotent(u);
        assert(trim_trailing_empty(l) == l);
        assert(wrap_message_spec(sender_len, join_lines(l), width) == l);
    }
}

/// A character that survives wrapping: not a space, a tab or a newline.
pub open spec fn is_visible(c: char) -> bool {
    !is_wrap_space(c) && c != '\n'
}

/// The visible characters of a text, in order.
pub open spec fn visible(s: Seq<char>) -> Seq<char> {
    s.filter(|c: char| is_visible(c))
}

/// The visible characters of each piece, concatenated, from `i` on.
pub open spec fn vis_cat(xs: Seq<Seq<char>>, i: int) -> Seq<char>
    decreases xs.len() - i,
{
    if i < 0 || i >= xs.len() {
        Seq::empty()
    } else {
        visible(xs[i]) + vis_cat(xs, i + 1)
    }
}

/// The words concatenated without separators, from `i` on.
pub open spec fn wcat(ws: Seq<Seq<char>>, i: int) -> Seq<char>
    decreases ws.len() - i,
{
    if i < 0 || i >= ws.len() {
        Seq::empty()
    } else {
        ws[i] + wcat(ws, i + 1)
    }
}

/// A text of only visible characters filters to itself.
pub proof fn lemma_visible_all(s: Seq<char>)
    requires
        forall|j: int| 0 <= j < s.len() ==> is_visible(#[trigger] s[j]),
    ensures
        visible(s) == s,
    decreases s.len(),
{
    reveal(Seq::filter);
    if s.len() > 0 {
        lemma_visible_all(s.drop_last());
        assert(visible(s) =~= s);
    } else {
        assert(visible(s) =~= s);
    }
}

/// A text of only invisible characters filters to nothing.
pub proof fn lemma_visible_none(s: Seq<char>)
    requires
        forall|j: int| 0 <= j < s.len() ==> !is_visible(#[trigger] s[j]),
    ensures
        visible(s) == Seq::<char>::empty(),
    decreases s.len(),
{
    reveal(Seq::filter);
    if s.len() > 0 {
        lemma_visible_none(s.drop_last());
        assert(visible(s) =~= Seq::<char>::empty());
    } else {
        assert(visible(s) =~= Seq::<char>::empty());
    }
}

/// Filtering distributes over concatenation.
pub proof fn lemma_visible_add(a: Seq<char>, b: Seq<char>)
    ensures
        visible(a + b) == visible(a) + visible(b),
{
    broadcast use vstd::seq_lib::group_filter_ensures;

    assert(visible(a + b) =~= visible(a) + visible(b));
}

/// Concatenating word lists concatenates their texts.
pub proof fn lemma_wcat_shift(t: Seq<Seq<char>>, w: Seq<char>, k: int)
    requires
        0 <= k <= t.len(),
    ensures
        wcat(seq![w] + t, k + 1) == wcat(t, k),
    decreases t.len() - k,
{
    let x = seq![w] + t;
    if k >= t.len() {
        assert(wcat(x, k + 1) =~= wcat(t, k));
    } else {
        lemma_wcat_shift(t, w, k + 1);
        assert(x[k + 1] == t[k]);
        assert(wcat(x, k + 1) =~= wcat(t, k));
    }
}

/// The same, for visible concatenation.
pub proof fn lemma_vis_cat_shift(t: Seq<Seq<char>>, w: Seq<char>, k: int)
    requires
        0 <= k <= t.len(),
    ensures
        vis_cat(seq![w] + t, k + 1) == vis_cat(t, k),
    decreases t.len() - k,
{
    let x = seq![w] + t;
    if k >= t.len() {
        assert(vis_cat(x, k + 1) =~= vis_cat(t, k));
    } else {
        lemma_vis_cat_shift(t, w, k + 1);
        assert(x[k + 1] == t[k]);
        assert(vis_cat(x, k + 1) =~= vis_cat(t, k));
    }
}

/// Visible concatenation splits over list concatenation.
pub proof fn lemma_vis_cat_add(a: Seq<Seq<char>>, b: Seq<Seq<char>>)
    ensures
        vis_cat(a + b, 0) == vis_cat(a, 0) + vis_cat(b, 0),
    decreases a.len(),
{
    if a.len() == 0 {
        assert(a + b =~= b);
        assert(vis_cat(a + b, 0) =~= vis_cat(a, 0) + vis_cat(b, 0));
    } else {
        let t = a.drop_first();
        assert(a =~= seq![a[0]] + t);
        assert(a + b =~= seq![a[0]] + (t + b));
        lemma_vis_cat_shift(t + b, a[0], 0);
        lemma_vis_cat_shift(t, a[0], 0);
        lemma_vis_cat_add(t, b);
        assert(vis_cat(a + b, 0) =~= vis_cat(a, 0) + vis_cat(b, 0));
    }
}

/// The visible text of a join is the words back to back.
pub proof fn lemma_visible_sj(ws: Seq<Seq<char>>, i: int)
    requires
        0 <= i <= ws.len(),
        forall|k: int| 0 <= k < ws.len() ==> word_ok(#[trigger] ws[k]),
    ensures
        visible(sj_from(ws, i)) == wcat(ws, i),
    decreases ws.len() - i,
{
    if i >= ws.len() {
        lemma_visible_none(sj_from(ws, i));
    } else if i == ws.len() - 1 {
        lemma_visible_all(ws[i]);
        assert(wcat(ws, i + 1) =~= Seq::<char>::empty());
        assert(wcat(ws, i) == ws[i] + wcat(ws, i + 1));
        assert(visible(sj_from(ws, i)) =~= wcat(ws, i));
    } else {
        lemma_visible_sj(ws, i + 1);
        lemma_visible_add(ws[i] + seq![' '], sj_from(ws, i + 1));
        lemma_visible_add(ws[i], seq![' ']);
        lemma_visible_all(ws[i]);
        lemma_visible_none(seq![' ']);
        assert(sj_from(ws, i) == ws[i] + seq![' '] + sj_from(ws, i + 1));
        assert(visible(ws[i] + seq![' ']) =~= ws[i]);
        assert(visible(sj_from(ws, i)) == visible(ws[i] + seq![' ']) + visible(
            sj_from(ws, i + 1),
        ));
        assert(wcat(ws, i) == ws[i] + wcat(ws, i + 1));
        assert(visible(sj_from(ws, i)) =~= wcat(ws, i));
    }
}

/// The visible text of a line is its words back to back.
pub proof fn lemma_visible_line(s: Seq<char>, i: int)
    requires
        0 <= i <= s.len(),
        no_newline(s),
    ensures
        visible(s.skip(i)) == wcat(words_from(s, i), 0),
    decreases s.len() - i,
{
    if i >= s.len() {
        assert(s.skip(i) =~= Seq::<char>::empty());
        lemma_visible_none(s.skip(i));
        assert(visible(s.skip(i)) =~= wcat(words_from(s, i), 0));
    } else if is_wrap_space(s[i]) {
        lemma_visible_line(s, i + 1);
        assert(s.skip(i) =~= seq![s[i]] + s.skip(i + 1));
        lemma_visible_add(seq![s[i]], s.skip(i + 1));
        lemma_visible_none(seq![s[i]]);
        assert(visible(s.skip(i)) =~= wcat(words_from(s, i), 0));
    } else {
        lemma_word_end_bounds(s, i);
        lemma_word_end_chars(s, i);
        let we = word_end(s, i);
        let w = s.subrange(i, we);
        lemma_visible_line(s, we);
        assert(s.skip(i) =~= w + s.skip(we));
        lemma_visible_add(w, s.skip(we));
        assert forall|j: int| 0 <= j < w.len() implies is_visible(#[trigger] w[j]) by {
            assert(w[j] == s[i + j]);
            assert(!is_wrap_space(s[i + j]));
            assert(s[i + j] != '\n');
        }
        lemma_visible_all(w);
        lemma_wcat_shift(words_from(s, we), w, 0);
        assert(words_from(s, i) == seq![w] + words_from(s, we));
        assert(visible(s.skip(i)) =~= wcat(words_from(s, i), 0));
    }
}

/// A force-broken word put back together is the word.
pub proof fn lemma_chop_cat(w: Seq<char>, first: nat, rest: nat)
    requires
        word_ok(w),
        first >= 1,
        rest >= 1,
    ensures
        wcat(chop(w, first, rest), 0) == w,
    decreases w.len(),
{
    if w.len() <= first {
        let pieces = chop(w, first, rest);
        assert(pieces == seq![w]);
        assert(wcat(pieces, 1) =~= Seq::<char>::empty());
        assert(wcat(pieces, 0) == pieces[0] + wcat(pieces, 1));
        assert(wcat(pieces, 0) =~= w);
    } else {
        assert(word_ok(w.skip(first as int)));
        lemma_chop_cat(w.skip(first as int), rest, rest);
        lemma_wcat_shift(chop(w.skip(first as int), rest, rest), w.take(first as int), 0);
        let pieces = chop(w, first, rest);
        assert(pieces == seq![w.take(first as int)] + chop(w.skip(first as int), rest, rest));
        assert(pieces[0] == w.take(first as int));
        assert(wcat(pieces, 1) == wcat(chop(w.skip(first as int), rest, rest), 0));
        assert(wcat(pieces, 0) == pieces[0] + wcat(pieces, 1));
        assert(w =~= w.take(first as int) + w.skip(first as int));
        assert(wcat(pieces, 0) =~= w);
    }
}

/// Lists whose pieces have the same visible text have the same visible
/// concatenation.
pub proof fn lemma_vis_cat_pointwise(xs: Seq<Seq<char>>, ys: Seq<Seq<char>>, i: int)
    requires
        xs.len() == ys.len(),
        forall|k: int| 0 <= k < xs.len() ==> visible(#[trigger] xs[k]) == visible(ys[k]),
        0 <= i <= xs.len(),
    ensures
        vis_cat(xs, i) == vis_cat(ys, i),
    decreases xs.len() - i,
{
    if i < xs.len() {
        lemma_vis_cat_pointwise(xs, ys, i + 1);
        assert(vis_cat(xs, i) =~= vis_cat(ys, i));
    }
}

/// Greedy filling keeps every visible character, in order.
pub proof fn lemma_fill_vis(ws: Seq<Seq<char>>, wi: int, cur: Seq<char>, acur: nat, a: nat)
    requires
        0 <= wi,
        forall|k: int| 0 <= k < ws.len() ==> word_ok(#[trigger] ws[k]),
        acur >= 1,
        a >= 1,
    ensures
        vis_cat(fill_from(ws, wi, cur, acur, a), 0) == visible(cur) + wcat(ws, wi),
    decreases ws.len() - wi, cur.len(),
{
    let out = fill_from(ws, wi, cur, acur, a);
    if wi >= ws.len() {
        if cur.len() == 0 {
            lemma_visible_none(cur);
            assert(vis_cat(out, 0) =~= visible(cur) + wcat(ws, wi));
        } else {
            assert(out == seq![cur]);
            assert(vis_cat(out, 1) =~= Seq::<char>::empty());
            assert(vis_cat(out, 0) == visible(cur) + vis_cat(out, 1));
            assert(vis_cat(out, 0) =~= visible(cur) + wcat(ws, wi));
        }
    } else {
        let w = ws[wi];
        assert(word_ok(w));
        assert(wcat(ws, wi) == w + wcat(ws, wi + 1));
        if cur.len() == 0 {
            lemma_visible_none(cur);
            if w.len() <= acur {
                lemma_fill_vis(ws, wi + 1, w, acur, a);
                lemma_visible_all(w);
                assert(vis_cat(out, 0) =~= visible(cur) + wcat(ws, wi));
            } else {
                let pieces = chop(w, acur, a);
                lemma_chop_wf(w, acur, a);
                lemma_chop_cat(w, acur, a);
                let kept = pieces.drop_last();
                let last = pieces.last();
                lemma_fill_vis(ws, wi + 1, last, a, a);
                let sub = fill_from(ws, wi + 1, last, a, a);
                assert(out == kept + sub);
                lemma_vis_cat_add(kept, sub);
                assert forall|k: int| 0 <= k < kept.len() implies visible(
                    #[trigger] kept[k],
                ) == kept[k] by {
                    assert(kept[k] == pieces[k]);
                    lemma_visible_all(pieces[k]);
                }
                lemma_vis_wcat_words(kept, 0);
                lemma_visible_all(last);
                lemma_wcat_push(kept, last, 0);
                assert(pieces =~= kept.push(last));
                assert(vis_cat(out, 0) =~= visible(cur) + wcat(ws, wi));
            }
        } else {
            if cur.len() + 1 + w.len() <= acur {
                let cur2 = cur + seq![' '] + w;
                lemma_fill_vis(ws, wi + 1, cur2, acur, a);
                lemma_visible_add(cur + seq![' '], w);
                lemma_visible_add(cur, seq![' ']);
                lemma_visible_none(seq![' ']);
                lemma_visible_all(w);
                assert(visible(cur2) =~= visible(cur) + w);
                assert(vis_cat(out, 0) =~= visible(cur) + wcat(ws, wi));
            } else {
                lemma_fill_vis(ws, wi, Seq::empty(), a, a);
                let sub = fill_from(ws, wi, Seq::empty(), a, a);
                assert(out == seq![cur] + sub);
                lemma_vis_cat_shift(sub, cur, 0);
                assert(vis_cat(out, 0) == visible(cur) + vis_cat(sub, 0));
                lemma_visible_none(Seq::empty());
                assert(vis_cat(sub, 0) =~= wcat(ws, wi));
                assert(vis_cat(out, 0) =~= visible(cur) + wcat(ws, wi));
            }
        }
    }
}

/// For a list of bare words the visible concatenation is the plain one.
pub proof fn lemma_vis_wcat_words(ws: Seq<Seq<char>>, i: int)
    requires
        0 <= i <= ws.len(),
        forall|k: int| 0 <= k < ws.len() ==> visible(#[trigger] ws[k]) == ws[k],
    ensures
        vis_cat(ws, i) == wcat(ws, i),
    decreases ws.len() - i,
{
    if i < ws.len() {
        lemma_vis_wcat_words(ws, i + 1);
        assert(vis_cat(ws, i) =~= wcat(ws, i));
    }
}

/// Concatenating one more word at the end.
pub proof fn lemma_wcat_push(ws: Seq<Seq<char>>, w: Seq<char>, i: int)
    requires
        0 <= i <= ws.len(),
    ensures
        wcat(ws.push(w), i) == wcat(ws, i) + w,
    decreases ws.len() - i,
{
    if i == ws.len() {
        assert(wcat(ws.push(w), i + 1) =~= Seq::<char>::empty());
        assert(wcat(ws.push(w), i) == ws.push(w)[i] + wcat(ws.push(w), i + 1));
        assert(wcat(ws.push(w), i) =~= wcat(ws, i) + w);
    } else {
        lemma_wcat_push(ws, w, i + 1);
        assert(ws.push(w)[i] == ws[i]);
        assert(wcat(ws.push(w), i) =~= wcat(ws, i) + w);
    }
}

/// Wrapping one source line keeps its visible characters, in order.
pub proof fn lemma_wrap_line_vis(line: Seq<char>, fa: nat, ca: nat, bare: bool)
    requires
        no_newline(line),
        fa >= 1,
        ca >= 1,
    ensures
        vis_cat(wrap_line(line, fa, ca, bare), 0) == visible(line),
{
    let ws = words_of(line);
    lemma_words_ok(line, 0);
    lemma_visible_line(line, 0);
    assert(line.skip(0) =~= line);
    lemma_fill_vis(ws, 0, Seq::empty(), fa, ca);
    lemma_visible_none(Seq::empty());
    let chunks = fill(ws, fa, ca);
    assert(vis_cat(chunks, 0) =~= wcat(ws, 0));
    let out = wrap_line(line, fa, ca, bare);
    if chunks.len() == 0 {
        assert(vis_cat(chunks, 0) =~= Seq::<char>::empty());
        lemma_visible_none(Seq::<char>::empty());
        assert(out == seq![Seq::<char>::empty()]);
        assert(vis_cat(out, 1) =~= Seq::<char>::empty());
        assert(vis_cat(out, 0) == visible(Seq::<char>::empty()) + vis_cat(out, 1));
        assert(vis_cat(out, 0) =~= visible(line));
    } else {
        assert forall|k: int| 0 <= k < out.len() implies visible(#[trigger] out[k]) == visible(
            chunks[k],
        ) by {
            if k == 0 && bare {
            } else {
                assert(out[k] == indent_seq() + chunks[k]);
                lemma_visible_add(indent_seq(), chunks[k]);
                lemma_visible_none(indent_seq());
                assert(visible(out[k]) =~= visible(chunks[k]));
            }
        }
        lemma_vis_cat_pointwise(out, chunks, 0);
        assert(vis_cat(out, 0) =~= visible(line));
    }
}

/// Wrapping a whole list of source lines keeps the visible characters.
pub proof fn lemma_wrap_lines_vis(lines: Seq<Seq<char>>, li: int, fa: nat, ca: nat)
    requires
        0 <= li <= lines.len(),
        forall|k: int| 0 <= k < lines.len() ==> no_newline(#[trigger] lines[k]),
        fa >= 1,
        ca >= 1,
    ensures
        vis_cat(wrap_lines_from(lines, li, fa, ca), 0) == vis_cat(lines, li),
    decreases lines.len() - li,
{
    if li >= lines.len() {
    } else {
        let budget = if li == 0 {
            fa
        } else {
            ca
        };
        let head = wrap_line(lines[li], budget, ca, li == 0);
        let rest = wrap_lines_from(lines, li + 1, fa, ca);
        lemma_wrap_line_vis(lines[li], budget, ca, li == 0);
        lemma_wrap_lines_vis(lines, li + 1, fa, ca);
        lemma_vis_cat_add(head, rest);
        assert(vis_cat(wrap_lines_from(lines, li, fa, ca), 0) =~= vis_cat(lines, li));
    }
}

/// The visible text of a newline join is the pieces' visible text.
pub proof fn lemma_visible_join(lines: Seq<Seq<char>>, i: int)
    requires
        0 <= i <= lines.len(),
    ensures
        visible(jn_from(lines, i)) == vis_cat(lines, i),
    decreases lines.len() - i,
{
    if i >= lines.len() {
        lemma_visible_none(jn_from(lines, i));
    } else if i == lines.len() - 1 {
        assert(vis_cat(lines, i + 1) =~= Seq::<char>::empty());
        assert(vis_cat(lines, i) == visible(lines[i]) + vis_cat(lines, i + 1));
        assert(visible(jn_from(lines, i)) =~= vis_cat(lines, i));
    } else {
        lemma_visible_join(lines, i + 1);
        assert(jn_from(lines, i) == lines[i] + seq!['\n'] + jn_from(lines, i + 1));
        lemma_visible_add(lines[i] + seq!['\n'], jn_from(lines, i + 1));
        lemma_visible_add(lines[i], seq!['\n']);
        lemma_visible_none(seq!['\n']);
        assert(visible(lines[i] + seq!['\n']) =~= visible(lines[i]));
        assert(visible(jn_from(lines, i)) =~= vis_cat(lines, i));
    }
}

/// Joining one more line at the front of a join.
pub proof fn lemma_jn_shift(t: Seq<Seq<char>>, l: Seq<char>, k: int)
    requires
        0 <= k <= t.len(),
    ensures
        jn_from(seq![l] + t, k + 1) == jn_from(t, k),
    decreases t.len() - k,
{
    let x = seq![l] + t;
    if k >= t.len() {
        assert(jn_from(x, k + 1) =~= jn_from(t, k));
    } else if k == t.len() - 1 {
        assert(x[k + 1] == t[k]);
    } else {
        lemma_jn_shift(t, l, k + 1);
        assert(x[k + 1] == t[k]);
        assert(jn_from(x, k + 1) =~= jn_from(t, k));
    }
}

/// Rejoining a split recovers the text.
pub proof fn lemma_join_split(s: Seq<char>, i: int)
    requires
        0 <= i <= s.len(),
    ensures
        jn_from(split_lines_from(s, i), 0) == s.skip(i),
    decreases s.len() - i,
{
    lemma_line_end_bounds(s, i);
    let e = line_end(s, i);
    let sub = s.subrange(i, e);
    if e >= s.len() {
        assert(split_lines_from(s, i) == seq![sub]);
        assert(jn_from(seq![sub], 0) == sub);
        assert(sub =~= s.skip(i));
    } else {
        lemma_join_split(s, e + 1);
        let tail = split_lines_from(s, e + 1);
        assert(tail.len() >= 1);
        let x = seq![sub] + tail;
        assert(split_lines_from(s, i) == x);
        assert(x.len() >= 2);
        lemma_jn_shift(tail, sub, 0);
        assert(jn_from(x, 0) == x[0] + seq!['\n'] + jn_from(x, 1));
        assert(jn_from(x, 0) == sub + seq!['\n'] + s.skip(e + 1));
        assert(s[e] == '\n');
        assert(jn_from(x, 0) =~= s.skip(i));
    }
}

/// Trimming trailing empty lines drops no visible character.
pub proof fn lemma_trim_vis(lines: Seq<Seq<char>>)
    ensures
        vis_cat(trim_trailing_empty(lines), 0) == vis_cat(lines, 0),
    decreases lines.len(),
{
    if lines.len() == 0 {
    } else if lines.last().len() == 0 {
        lemma_trim_vis(lines.drop_last());
        assert(lines =~= lines.drop_last() + seq![lines.last()]);
        lemma_vis_cat_add(lines.drop_last(), seq![lines.last()]);
        lemma_visible_none(lines.last());
        assert(vis_cat(seq![lines.last()], 1) =~= Seq::<char>::empty());
        assert(vis_cat(seq![lines.last()], 0) == visible(lines.last()) + vis_cat(
            seq![lines.last()],
            1,
        ));
        assert(vis_cat(lines, 0) =~= vis_cat(lines.drop_last(), 0));
    } else {
    }
}

/// Wrapping keeps every visible character of the message, in order: the
/// rejoined display lines show exactly the message's non-whitespace text.
pub proof fn lemma_wrap_preserves_visible(sender_len: nat, raw: Seq<char>, width: nat)
    ensures
        visible(join_lines(wrap_message_spec(sender_len, raw, width))) == visible(raw),
{
    let fa = avail_first(sender_len, width);
    let ca = avail_cont(width);
    let src = split_lines(raw);
    let u = wrap_lines_from(src, 0, fa, ca);
    let l = wrap_message_spec(sender_len, raw, width);
    lemma_split_no_newline(raw, 0);
    lemma_join_split(raw, 0);
    assert(raw.skip(0) =~= raw);
    lemma_visible_join(src, 0);
    assert(visible(raw) == vis_cat(src, 0));
    lemma_wrap_lines_vis(src, 0, fa, ca);
    lemma_trim_vis(u);
    lemma_wrap_lines_shape(src, 0, fa, ca);
    lemma_trim_prefix(u);
    assert forall|k: int| 0 <= k < l.len() implies no_newline(#[trigger] l[k]) by {
        assert(l[k] == u[k]);
        if l[k].len() == 0 {
        } else if k == 0 {
            assert(line_ok_first(u[0], fa));
        } else {
            assert(line_ok_cont(u[k], ca));
        }
    }
    lemma_visible_join(l, 0);
    assert(visible(join_lines(l)) == vis_cat(l, 0));
    assert(vis_cat(l, 0) == vis_cat(u, 0));
}

/// Rewrapping at another width may move the line breaks but shows the same
/// visible characters in the same order.
pub proof fn lemma_wrap_width_change(
    sender_len: nat,
    raw: Seq<char>,
    width1: nat,
    width2: nat,
)
    ensures
        visible(join_lines(wrap_message_spec(sender_len, raw, width1))) == visible(
            join_lines(wrap_message_spec(sender_len, raw, width2)),
        ),
{
    lemma_wrap_preserves_visible(sender_len, raw, width1);
    lemma_wrap_preserves_visible(sender_len, raw, width2);
}

} // verus!

//! Greedy word-wrapping of message text: source lines are split into words,
//! words are packed into chunks no wider than the available width, a word
//! wider than a whole line is force-broken, and display lines carry a fixed
//! indent except for the very first, which leaves room for the sender label.

use vstd::prelude::*;
use vstd::string::*;
use crate::chars::{str_to_chars, chars_to_string, sub_chars, append_chars};

verus! {

/// The characters words are separated by.
pub open spec fn is_wrap_space(c: char) -> bool {
    c == ' ' || c == '\t'
}

/// The index just past the word starting at `i`: the first position at or
/// after `i` that is a space or the end of the line.
pub open spec fn word_end(line: Seq<char>, i: int) -> int
    decreases line.len() - i when 0 <= i <= line.len()
{
    if i >= line.len() || is_wrap_space(line[i]) {
        i
    } else {
        word_end(line, i + 1)
    }
}

pub proof fn lemma_word_end_bounds(line: Seq<char>, i: int)
    requires
        0 <= i <= line.len(),
    ensures
        i <= word_end(line, i) <= line.len(),
        i < line.len() && !is_wrap_space(line[i]) ==> word_end(line, i) > i,
    decreases line.len() - i,
{
    if i >= line.len() || is_wrap_space(line[i]) {
    } else {
        lemma_word_end_bounds(line, i + 1);
    }
}

/// The words of a line from position `i` on: maximal runs of non-space
/// characters, in order.
pub open spec fn words_from(line: Seq<char>, i: int) -> Seq<Seq<char>>
    decreases line.len() - i when 0 <= i <= line.len() via words_from_decreases
{
    if i >= line.len() {
        Seq::empty()
    } else if is_wrap_space(line[i]) {
        words_from(line, i + 1)
    } else {
        seq![line.subrange(i, word_end(line, i))] + words_from(line, word_end(line, i))
    }
}

#[via_fn]
proof fn words_from_decreases(line: Seq<char>, i: int) {
    if 0 <= i <= line.len() {
        lemma_word_end_bounds(line, i);
    }
}

/// The words of a whole line.
pub open spec fn words_of(line: Seq<char>) -> Seq<Seq<char>> {
    words_from(line, 0)
}

/// Breaks one over-long word into pieces: the first piece may fill `first`
/// columns, every later piece `rest` columns.
pub open spec fn chop(w: Seq<char>, first: nat, rest: nat) -> Seq<Seq<char>>
    decreases w.len() when first >= 1 && rest >= 1
{
    if w.len() <= first {
        seq![w]
    } else {
        seq![w.take(first as int)] + chop(w.skip(first as int), rest, rest)
    }
}

/// Greedy packing of `words[wi..]` into chunks. `cur` is the chunk being
/// built, `acur` the width still allowed for it, and `a` the width of every
/// later chunk. Words are joined by single spaces; a word wider than a whole
/// chunk is force-broken by `chop`.
pub open spec fn fill_from(
    words: Seq<Seq<char>>,
    wi: int,
    cur: Seq<char>,
    acur: nat,
    a: nat,
) -> Seq<Seq<char>>
    decreases words.len() - wi, cur.len() when 0 <= wi && acur >= 1 && a >= 1
{
    if wi >= words.len() {
        if cur.len() == 0 {
            Seq::empty()
        } else {
            seq![cur]
        }
    } else {
        let w = words[wi];
        if cur.len() == 0 {
            if w.len() <= acur {
                fill_from(words, wi + 1, w, acur, a)
            } else {
                let pieces = chop(w, acur, a);
                pieces.drop_last() + fill_from(words, wi + 1, pieces.last(), a, a)
            }
        } else {
            if cur.len() + 1 + w.len() <= acur {
                fill_from(words, wi + 1, cur + seq![' '] + w, acur, a)
            } else {
                seq![cur] + fill_from(words, wi, Seq::empty(), a, a)
            }
        }
    }
}

/// The chunks of one source line: its words packed greedily, the first chunk
/// `first_avail` wide, later chunks `cont_avail` wide.
pub open spec fn fill(words: Seq<Seq<char>>, first_avail: nat, cont_avail: nat) -> Seq<Seq<char>> {
    fill_from(words, 0, Seq::empty(), first_avail, cont_avail)
}

/// The columns left for text on the first display line, after the room
/// reserved for the sender label (`sender`, a colon and a space); at least 1.
pub open spec fn avail_first(sender_len: nat, width: nat) -> nat {
    if sender_len + 2 < width {
        (width - sender_len - 2) as nat
    } else {
        1
    }
}

/// The columns left for text on an indented continuation line; at least 1.
pub open spec fn avail_cont(width: nat) -> nat {
    if width > 4 {
        (width - 4) as nat
    } else {
        1
    }
}

/// The fixed indent of continuation lines.
pub open spec fn indent_seq() -> Seq<char> {
    seq![' ', ' ', ' ', ' ']
}

/// The display lines of one source line: its chunks, each prefixed by the
/// indent except a bare first chunk where `bare_first` is set. A line with no
/// words yields one empty display line.
pub open spec fn wrap_line(
    line: Seq<char>,
    first_avail: nat,
    cont_avail: nat,
    bare_first: bool,
) -> Seq<Seq<char>> {
    let chunks = fill(words_of(line), first_avail, cont_avail);
    if chunks.len() == 0 {
        seq![Seq::<char>::empty()]
    } else {
        Seq::new(
            chunks.len(),
            |i: int|
                if i == 0 && bare_first {
                    chunks[0]
                } else {
                    indent_seq() + chunks[i]
                },
        )
    }
}

/// The index of the first newline at or after `i`, or the end.
pub open spec fn line_end(s: Seq<char>, i: int) -> int
    decreases s.len() - i when 0 <= i <= s.len()
{
    if i >= s.len() || s[i] == '\n' {
        i
    } else {
        line_end(s, i + 1)
    }
}

pub proof fn lemma_line_end_bounds(s: Seq<char>, i: int)
    requires
        0 <= i <= s.len(),
    ensures
        i <= line_end(s, i) <= s.len(),
        line_end(s, i) < s.len() ==> s[line_end(s, i)] == '\n',
        forall|j: int| i <= j < line_end(s, i) ==> s[j] != '\n',
    decreases s.len() - i,
{
    if i >= s.len() || s[i] == '\n' {
    } else {
        lemma_line_end_bounds(s, i + 1);
    }
}

/// The source lines of a text from position `i` on, split at newlines; the
/// separators are dropped and empty lines are kept.
pub open spec fn split_lines_from(s: Seq<char>, i: int) -> Seq<Seq<char>>
    decreases s.len() - i when 0 <= i <= s.len() via split_lines_from_decreases
{
    let e = line_end(s, i);
    if e >= s.len() {
        seq![s.subrange(i, e)]
    } else {
        seq![s.subrange(i, e)] + split_lines_from(s, e + 1)
    }
}

#[via_fn]
proof fn split_lines_from_decreases(s: Seq<char>, i: int) {
    if 0 <= i <= s.len() {
        lemma_line_end_bounds(s, i);
    }
}

/// The source lines of a text. An empty text is one empty line.
pub open spec fn split_lines(s: Seq<char>) -> Seq<Seq<char>> {
    split_lines_from(s, 0)
}

/// The display lines of every source line from `li` on, concatenated. Only
/// source line 0 gets the bare, label-width first chunk.
pub open spec fn wrap_lines_from(
    lines: Seq<Seq<char>>,
    li: int,
    fa: nat,
    ca: nat,
) -> Seq<Seq<char>>
    decreases lines.len() - li,
{
    if li < 0 || li >= lines.len() {
        Seq::empty()
    } else {
        wrap_line(lines[li], if li == 0 { fa } else { ca }, ca, li == 0)
            + wrap_lines_from(lines, li + 1, fa, ca)
    }
}

/// Drops empty display lines from the end.
pub open spec fn trim_trailing_empty(lines: Seq<Seq<char>>) -> Seq<Seq<char>>
    decreases lines.len(),
{
    if lines.len() == 0 {
        lines
    } else if lines.last().len() == 0 {
        trim_trailing_empty(lines.drop_last())
    } else {
        lines
    }
}

/// The wrapped display lines of a whole message for a given sender-label
/// width and column width.
pub open spec fn wrap_message_spec(sender_len: nat, raw: Seq<char>, width: nat) -> Seq<Seq<char>> {
    trim_trailing_empty(
        wrap_lines_from(
            split_lines(raw),
            0,
            avail_first(sender_len, width),
            avail_cont(width),
        ),
    )
}

/// The words of a line, as vectors of characters.
fn find_words(line: &Vec<char>) -> (words: Vec<Vec<char>>)
    ensures
        words.deep_view() == words_of(line@),
{
    let mut words: Vec<Vec<char>> = Vec::new();
    let mut i: usize = 0;
    proof {
        assert(words.deep_view() + words_from(line@, 0) =~= words_from(line@, 0));
    }
    while i < line.len()
        invariant
            i <= line@.len(),
            words_of(line@) == words.deep_view() + words_from(line@, i as int),
        decreases line@.len() - i,
    {
        let c = line[i];
        if c == ' ' || c == '\t' {
            i = i + 1;
        } else {
            let start = i;
            let mut w: Vec<char> = Vec::new();
            while i < line.len() && !(line[i] == ' ' || line[i] == '\t')
                invariant
                    start <= i <= line@.len(),
                    w@ == line@.subrange(start as int, i as int),
                    word_end(line@, i as int) == word_end(line@, start as int),
                decreases line@.len() - i,
            {
                w.push(line[i]);
                proof {
                    assert(line@.subrange(start as int, i + 1) =~= line@.subrange(
                        start as int,
                        i as int,
                    ).push(line@[i as int]));
                }
                i = i + 1;
            }
            proof {
                lemma_word_end_bounds(line@, start as int);
                assert(word_end(line@, i as int) == i);
            }
            let ghost dv = words.deep_view();
            words.push(w);
            proof {
                assert(words.deep_view() =~~= dv.push(w@));
                assert(dv + words_from(line@, start as int) =~~= words.deep_view()
                    + words_from(line@, i as int));
            }
        }
    }
    proof {
        assert(words.deep_view() + words_from(line@, line@.len() as int) =~= words.deep_view());
    }
    words
}

/// Breaks one over-long word into pieces no wider than the available widths.
fn chop_word(w: &Vec<char>, first: usize, rest: usize) -> (pieces: Vec<Vec<char>>)
    requires
        first >= 1,
        rest >= 1,
    ensures
        pieces.deep_view() == chop(w@, first as nat, rest as nat),
        pieces@.len() >= 1,
{
    let mut pieces: Vec<Vec<char>> = Vec::new();
    let mut pos: usize = 0;
    let mut avail: usize = first;
    proof {
        assert(w@.subrange(0, w@.len() as int) =~= w@);
    }
    loop
        invariant
            pos <= w@.len(),
            avail >= 1,
            rest >= 1,
            chop(w@, first as nat, rest as nat) == pieces.deep_view() + chop(
                w@.subrange(pos as int, w@.len() as int),
                avail as nat,
                rest as nat,
            ),
        decreases w@.len() - pos,
    {
        let ghost remaining = w@.subrange(pos as int, w@.len() as int);
        let ghost dv = pieces.deep_view();
        if w.len() - pos <= avail {
            let piece = sub_chars(w, pos, w.len());
            pieces.push(piece);
            proof {
                assert(chop(remaining, avail as nat, rest as nat) =~= seq![remaining]);
                assert(pieces.deep_view() =~~= dv.push(remaining));
                assert(dv + chop(remaining, avail as nat, rest as nat) =~~= pieces.deep_view());
            }
            return pieces;
        } else {
            let piece = sub_chars(w, pos, pos + avail);
            pieces.push(piece);
            proof {
                assert(remaining.take(avail as int) =~= w@.subrange(
                    pos as int,
                    pos + avail,
                ));
                assert(remaining.skip(avail as int) =~= w@.subrange(
                    pos + avail,
                    w@.len() as int,
                ));
                assert(pieces.deep_view() =~~= dv.push(remaining.take(avail as int)));
                assert(dv + chop(remaining, avail as nat, rest as nat) =~~= pieces.deep_view()
                    + chop(remaining.skip(avail as int), rest as nat, rest as nat));
            }
            pos = pos + avail;
            avail = rest;
        }
    }
}

/// Packs words greedily into chunks, the first chunk `first_avail` wide and
/// later chunks `cont_avail` wide.
fn fill_words(words: &Vec<Vec<char>>, first_avail: usize, cont_avail: usize) -> (chunks: Vec<
    Vec<char>,
>)
    requires
        first_avail >= 1,
        cont_avail >= 1,
    ensures
        chunks.deep_view() == fill(words.deep_view(), first_avail as nat, cont_avail as nat),
{
    let mut chunks: Vec<Vec<char>> = Vec::new();
    let mut cur: Vec<char> = Vec::new();
    let mut acur: usize = first_avail;
    let mut wi: usize = 0;
    proof {
        assert(chunks.deep_view() + fill_from(
            words.deep_view(),
            0,
            cur@,
            first_avail as nat,
            cont_avail as nat,
        ) =~= fill(words.deep_view(), first_avail as nat, cont_avail as nat));
    }
    loop
        invariant
            wi <= words@.len(),
            acur >= 1,
            cont_avail >= 1,
            fill(words.deep_view(), first_avail as nat, cont_avail as nat) == chunks.deep_view()
                + fill_from(
                words.deep_view(),
                wi as int,
                cur@,
                acur as nat,
                cont_avail as nat,
            ),
        decreases words@.len() - wi, cur@.len(),
    {
        let ghost dv = chunks.deep_view();
        if wi >= words.len() {
            if cur.len() == 0 {
                proof {
                    assert(dv + fill_from(
                        words.deep_view(),
                        wi as int,
                        cur@,
                        acur as nat,
                        cont_avail as nat,
                    ) =~= dv);
                }
                return chunks;
            } else {
                let ghost curv = cur@;
                chunks.push(cur);
                proof {
                    assert(chunks.deep_view() =~~= dv.push(curv));
                    assert(dv + fill_from(
                        words.deep_view(),
                        wi as int,
                        curv,
                        acur as nat,
                        cont_avail as nat,
                    ) =~= chunks.deep_view());
                }
                return chunks;
            }
        }
        let w = &words[wi];
        proof {
            assert(w.deep_view() == words.deep_view()[wi as int]);
        }
        if cur.len() == 0 {
            if w.len() <= acur {
                cur = w.clone();
                proof {
                    assert(cur@ =~= w@);
                    assert(cur.deep_view() =~~= w.deep_view());
                    assert(cur@ == words.deep_view()[wi as int]);
                }
                wi = wi + 1;
            } else {
                let mut pieces = chop_word(w, acur, cont_avail);
                proof {
                    assert(w@ == words.deep_view()[wi as int]);
                }
                let ghost piecesv = pieces.deep_view();
                cur = match pieces.pop() {
                    Some(p) => p,
                    None => Vec::new(),
                };
                proof {
                    assert(cur@ == piecesv.last());
                    assert(pieces.deep_view() =~~= piecesv.drop_last());
                }
                let mut k: usize = 0;
                while k < pieces.len()
                    invariant
                        k <= pieces@.len(),
                        pieces.deep_view() == piecesv.drop_last(),
                        chunks.deep_view() == dv + piecesv.drop_last().take(k as int),
                    decreases pieces@.len() - k,
                {
                    let ghost dv2 = chunks.deep_view();
                    let piece = pieces[k].clone();
                    proof {
                        assert(piece@ =~= pieces@[k as int]@);
                    }
                    chunks.push(piece);
                    proof {
                        assert(chunks.deep_view() =~~= dv2.push(piecesv.drop_last()[k as int]));
                        assert(dv + piecesv.drop_last().take(k + 1) =~= (dv
                            + piecesv.drop_last().take(k as int)).push(
                            piecesv.drop_last()[k as int],
                        ));
                    }
                    k = k + 1;
                }
                proof {
                    assert(piecesv.drop_last().take(pieces@.len() as int) =~= piecesv.drop_last());
                    assert(chunks.deep_view() =~~= dv + piecesv.drop_last());
                }
                acur = cont_avail;
                wi = wi + 1;
            }
        } else {
            if cur.len() < acur && w.len() <= acur - cur.len() - 1 {
                let ghost curv = cur@;
                cur.push(' ');
                append_chars(&mut cur, w);
                proof {
                    assert(cur@ =~= curv + seq![' '] + words.deep_view()[wi as int]);
                }
                wi = wi + 1;
            } else {
                let ghost curv = cur@;
                chunks.push(cur);
                cur = Vec::new();
                proof {
                    assert(chunks.deep_view() =~~= dv.push(curv));
                    assert(dv + seq![curv] + fill_from(
                        words.deep_view(),
                        wi as int,
                        Seq::<char>::empty(),
                        cont_avail as nat,
                        cont_avail as nat,
                    ) =~= chunks.deep_view() + fill_from(
                        words.deep_view(),
                        wi as int,
                        cur@,
                        cont_avail as nat,
                        cont_avail as nat,
                    ));
                }
                acur = cont_avail;
            }
        }
    }
}

/// The display lines of one source line of the compose buffer: its chunks
/// without any indent. A line with no words yields one empty display line.
pub open spec fn plain_line(line: Seq<char>, a: nat) -> Seq<Seq<char>> {
    let chunks = fill(words_of(line), a, a);
    if chunks.len() == 0 {
        seq![Seq::<char>::empty()]
    } else {
        chunks
    }
}

pub open spec fn plain_lines_from(lines: Seq<Seq<char>>, li: int, a: nat) -> Seq<Seq<char>>
    decreases lines.len() - li,
{
    if li < 0 || li >= lines.len() {
        Seq::empty()
    } else {
        plain_line(lines[li], a) + plain_lines_from(lines, li + 1, a)
    }
}

/// The width the compose buffer is wrapped at; at least 1.
pub open spec fn plain_avail(width: nat) -> nat {
    if width >= 1 {
        width
    } else {
        1
    }
}

/// The compose buffer wrapped plainly at the given width: every source line
/// greedily packed, no indents, nothing trimmed.
pub open spec fn fill_plain_spec(raw: Seq<char>, width: nat) -> Seq<Seq<char>> {
    plain_lines_from(split_lines(raw), 0, plain_avail(width))
}

/// The source lines of a text, as vectors of characters.
fn split_lines_exec(s: &Vec<char>) -> (lines: Vec<Vec<char>>)
    ensures
        lines.deep_view() == split_lines(s@),
        lines@.len() >= 1,
{
    let mut lines: Vec<Vec<char>> = Vec::new();
    let mut i: usize = 0;
    let ghost whole = split_lines(s@);
    proof {
        assert(lines.deep_view() + split_lines_from(s@, 0) =~= split_lines_from(s@, 0));
    }
    loop
        invariant
            i <= s@.len(),
            whole == split_lines(s@),
            whole == lines.deep_view() + split_lines_from(s@, i as int),
        decreases s@.len() - i,
    {
        let start = i;
        while i < s.len() && s[i] != '\n'
            invariant
                start <= i <= s@.len(),
                line_end(s@, i as int) == line_end(s@, start as int),
            decreases s@.len() - i,
        {
            i = i + 1;
        }
        proof {
            lemma_line_end_bounds(s@, start as int);
            assert(line_end(s@, i as int) == i);
        }
        let line = sub_chars(s, start, i);
        let ghost dv = lines.deep_view();
        lines.push(line);
        proof {
            assert(lines.deep_view() =~~= dv.push(s@.subrange(start as int, i as int)));
        }
        if i >= s.len() {
            proof {
                assert(split_lines_from(s@, start as int) =~= seq![
                    s@.subrange(start as int, i as int),
                ]);
                assert(whole =~~= lines.deep_view());
            }
            return lines;
        }
        proof {
            assert(split_lines_from(s@, start as int) =~= seq![
                s@.subrange(start as int, i as int),
            ] + split_lines_from(s@, i + 1));
            assert(dv + split_lines_from(s@, start as int) =~~= lines.deep_view()
                + split_lines_from(s@, i + 1));
        }
        i = i + 1;
    }
}

/// Wraps every source line and concatenates the display lines. With
/// `with_indent` the continuation indent and the sender-label reserve of the
/// first line are applied; without it every chunk stands bare.
fn wrap_all_lines(src: &Vec<Vec<char>>, fa: usize, ca: usize, with_indent: bool) -> (out: Vec<
    Vec<char>,
>)
    requires
        fa >= 1,
        ca >= 1,
    ensures
        with_indent ==> out.deep_view() == wrap_lines_from(
            src.deep_view(),
            0,
            fa as nat,
            ca as nat,
        ),
        !with_indent ==> out.deep_view() == plain_lines_from(src.deep_view(), 0, ca as nat),
{
    let mut out: Vec<Vec<char>> = Vec::new();
    let mut li: usize = 0;
    let ghost whole = if with_indent {
        wrap_lines_from(src.deep_view(), 0, fa as nat, ca as nat)
    } else {
        plain_lines_from(src.deep_view(), 0, ca as nat)
    };
    proof {
        assert(out.deep_view() + whole =~= whole);
    }
    while li < src.len()
        invariant
            li <= src@.len(),
            fa >= 1,
            ca >= 1,
            whole == if with_indent {
                wrap_lines_from(src.deep_view(), 0, fa as nat, ca as nat)
            } else {
                plain_lines_from(src.deep_view(), 0, ca as nat)
            },
            with_indent ==> whole == out.deep_view() + wrap_lines_from(
                src.deep_view(),
                li as int,
                fa as nat,
                ca as nat,
            ),
            !with_indent ==> whole == out.deep_view() + plain_lines_from(
                src.deep_view(),
                li as int,
                ca as nat,
            ),
        decreases src@.len() - li,
    {
        let words = find_words(&src[li]);
        proof {
            assert(src@[li as int]@ == src.deep_view()[li as int]);
            assert(words.deep_view() == words_of(src.deep_view()[li as int]));
        }
        let line_fa = if with_indent && li == 0 {
            fa
        } else {
            ca
        };
        let chunks = fill_words(&words, line_fa, ca);
        let ghost line_out = if with_indent {
            wrap_line(
                src.deep_view()[li as int],
                if li == 0 {
                    fa as nat
                } else {
                    ca as nat
                },
                ca as nat,
                li == 0,
            )
        } else {
            plain_line(src.deep_view()[li as int], ca as nat)
        };
        let ghost dv = out.deep_view();
        if chunks.len() == 0 {
            out.push(Vec::new());
            proof {
                assert(line_out =~= seq![Seq::<char>::empty()]);
                assert(out.deep_view() =~~= dv + line_out);
            }
        } else {
            let mut k: usize = 0;
            while k < chunks.len()
                invariant
                    k <= chunks@.len(),
                    chunks@.len() == line_out.len(),
                    chunks.deep_view() == if with_indent {
                        fill(
                            words_of(src.deep_view()[li as int]),
                            if li == 0 {
                                fa as nat
                            } else {
                                ca as nat
                            },
                            ca as nat,
                        )
                    } else {
                        fill(words_of(src.deep_view()[li as int]), ca as nat, ca as nat)
                    },
                    chunks@.len() > 0,
                    forall|m: int|
                        0 <= m < line_out.len() ==> line_out[m] == if m == 0 && with_indent && li
                            == 0 {
                            chunks.deep_view()[0]
                        } else if with_indent {
                            indent_seq() + chunks.deep_view()[m]
                        } else {
                            chunks.deep_view()[m]
                        },
                    out.deep_view() == dv + line_out.take(k as int),
                decreases chunks@.len() - k,
            {
                let ghost dv2 = out.deep_view();
                if with_indent && !(k == 0 && li == 0) {
                    let mut l: Vec<char> = Vec::new();
                    l.push(' ');
                    l.push(' ');
                    l.push(' ');
                    l.push(' ');
                    append_chars(&mut l, &chunks[k]);
                    proof {
                        assert(l@ =~= indent_seq() + chunks.deep_view()[k as int]);
                    }
                    out.push(l);
                } else {
                    let c = chunks[k].clone();
                    proof {
                        assert(c@ =~= chunks@[k as int]@);
                    }
                    out.push(c);
                }
                proof {
                    assert(out.deep_view() =~~= dv2.push(line_out[k as int]));
                    assert(dv + line_out.take(k + 1) =~= (dv + line_out.take(k as int)).push(
                        line_out[k as int],
                    ));
                }
                k = k + 1;
            }
            proof {
                assert(line_out.take(line_out.len() as int) =~= line_out);
            }
        }
        proof {
            assert(dv + (line_out + (if with_indent {
                wrap_lines_from(src.deep_view(), li + 1, fa as nat, ca as nat)
            } else {
                plain_lines_from(src.deep_view(), li + 1, ca as nat)
            })) =~= (dv + line_out) + (if with_indent {
                wrap_lines_from(src.deep_view(), li + 1, fa as nat, ca as nat)
            } else {
                plain_lines_from(src.deep_view(), li + 1, ca as nat)
            }));
        }
        li = li + 1;
    }
    proof {
        assert(out.deep_view() + Seq::<Seq<char>>::empty() =~= out.deep_view());
    }
    out
}

/// Converts wrapped character lines to strings.
fn lines_to_strings(lines: Vec<Vec<char>>) -> (out: Vec<String>)
    ensures
        out.deep_view() == lines.deep_view(),
{
    let mut out: Vec<String> = Vec::new();
    let mut i: usize = 0;
    while i < lines.len()
        invariant
            i <= lines@.len(),
            out.deep_view() == lines.deep_view().take(i as int),
        decreases lines@.len() - i,
    {
        let ghost dv = out.deep_view();
        let s = chars_to_string(&lines[i]);
        out.push(s);
        proof {
            assert(out.deep_view() =~~= dv.push(lines.deep_view()[i as int]));
            assert(lines.deep_view().take(i + 1) =~= lines.deep_view().take(i as int).push(
                lines.deep_view()[i as int],
            ));
        }
        i = i + 1;
    }
    proof {
        assert(lines.deep_view().take(lines@.len() as int) =~= lines.deep_view());
    }
    out
}

/// Wraps a message body for display beside a sender label: greedy word
/// wrapping at the given column width, the first display line leaving room
/// for `sender` with a colon and a space, continuation lines indented, and
/// trailing empty lines trimmed.
pub fn wrap_message(sender: &str, raw: &str, width: usize) -> (lines: Vec<String>)
    ensures
        lines.deep_view() == wrap_message_spec(sender@.len(), raw@, width as nat),
{
    let sender_len = sender.unicode_len();
    let chars = str_to_chars(raw);
    let fa: usize = if width > 2 && sender_len < width - 2 {
        width - sender_len - 2
    } else {
        1
    };
    let ca: usize = if width > 4 {
        width - 4
    } else {
        1
    };
    proof {
        assert(fa as nat == avail_first(sender@.len(), width as nat));
        assert(ca as nat == avail_cont(width as nat));
    }
    let src = split_lines_exec(&chars);
    let mut out = wrap_all_lines(&src, fa, ca, true);
    while out.len() > 0 && out[out.len() - 1].len() == 0
        invariant
            trim_trailing_empty(out.deep_view()) == wrap_message_spec(
                sender@.len(),
                raw@,
                width as nat,
            ),
        decreases out@.len(),
    {
        let ghost dv = out.deep_view();
        out.pop();
        proof {
            assert(out.deep_view() =~~= dv.drop_last());
            assert(dv.last().len() == 0);
        }
    }
    proof {
        if out.deep_view().len() > 0 {
            assert(out.deep_view().last().len() > 0);
        }
        assert(trim_trailing_empty(out.deep_view()) == out.deep_view());
    }
    lines_to_strings(out)
}

/// Wraps the compose buffer plainly at the given width: greedy word
/// wrapping, no indents, no label reserve.
pub fn fill_plain(raw: &str, width: usize) -> (lines: Vec<String>)
    ensures
        lines.deep_view() == fill_plain_spec(raw@, width as nat),
{
    let chars = str_to_chars(raw);
    let a: usize = if width >= 1 {
        width
    } else {
        1
    };
    let src = split_lines_exec(&chars);
    let out = wrap_all_lines(&src, a, a, false);
    lines_to_strings(out)
}

} // verus!

//! Splitting one reply line into sends of bounded length.
//!
//! A line is cut between words only. Words are packed greedily: a word joins
//! the pending chunk unless the chunk would then exceed `CHUNK_LIMIT`
//! characters, in which case the chunk is flushed and the word starts the next
//! one. A single word longer than the limit is sent whole, in a chunk of its
//! own.

use vstd::prelude::*;
use vstd::string::{StrSliceExecFns, StringExecFns};
use crate::text::{chars_of, is_white_space, join, texts, white_space, words};

verus! {

/// The greatest length, in characters, of a chunk that holds more than one word.
pub const CHUNK_LIMIT: usize = 400;

/// The separator between the words of a chunk.
pub open spec fn space() -> Seq<char> {
    seq![' ']
}

/// A word as `words` yields them: not empty, and free of whitespace.
pub open spec fn is_word(w: Seq<char>) -> bool {
    w.len() > 0 && forall|i: int| 0 <= i < w.len() ==> !white_space(#[trigger] w[i])
}

/// Whether each of `ws` is a word.
pub open spec fn all_words(ws: Seq<Seq<char>>) -> bool {
    forall|i: int| 0 <= i < ws.len() ==> is_word(#[trigger] ws[i])
}

/// Greedy grouping of `ws`, the words in `pending` being those of the chunk
/// under construction.
pub open spec fn pack(ws: Seq<Seq<char>>, pending: Seq<Seq<char>>, limit: nat) -> Seq<
    Seq<Seq<char>>,
>
    decreases ws.len(),
{
    if ws.len() == 0 {
        if pending.len() == 0 {
            Seq::empty()
        } else {
            seq![pending]
        }
    } else if pending.len() > 0 && join(pending, space()).len() + 1 + ws[0].len() > limit {
        seq![pending] + pack(ws.drop_first(), seq![ws[0]], limit)
    } else {
        pack(ws.drop_first(), pending.push(ws[0]), limit)
    }
}

/// The word groups that `line` is sent in.
pub open spec fn groups(line: Seq<char>) -> Seq<Seq<Seq<char>>> {
    pack(words(line), Seq::empty(), CHUNK_LIMIT as nat)
}

/// Each group, its words joined by single spaces.
pub open spec fn joined(gs: Seq<Seq<Seq<char>>>) -> Seq<Seq<char>> {
    Seq::new(gs.len(), |i: int| join(gs[i], space()))
}

/// The chunks that `line` is sent in.
pub open spec fn chunks(line: Seq<char>) -> Seq<Seq<char>> {
    joined(groups(line))
}

/// The words of `line`, in order.
pub fn split_words(line: &str) -> (out: Vec<String>)
    ensures
        texts(out@) == words(line@),
{
    let chars = chars_of(line);
    let mut out: Vec<String> = Vec::new();
    let mut word = String::new();
    let mut in_word = false;
    let mut i: usize = 0;
    while i < chars.len()
        invariant
            i <= chars.len(),
            chars@ == line@,
            in_word <==> (i > 0 && !white_space(line@[i - 1])),
            !in_word ==> texts(out@) == words(line@.take(i as int)),
            in_word ==> texts(out@).push(word@) == words(line@.take(i as int)),
        decreases chars.len() - i,
    {
        let c = chars[i];
        proof {
            let next = line@.take(i + 1);
            assert(next.drop_last() == line@.take(i as int));
            assert(next.last() == c);
            if i > 0 {
                assert(next[next.len() - 2] == line@[i - 1]);
            }
        }
        if is_white_space(c) {
            if in_word {
                let ghost before = texts(out@);
                out.push(word);
                word = String::new();
                assert(texts(out@) == before.push(out@.last()@));
            }
            in_word = false;
        } else {
            let ghost before = word@;
            if !in_word {
                word = String::new();
            }
            word.push(c);
            proof {
                if in_word {
                    assert(texts(out@).push(before).drop_last() == texts(out@));
                }
            }
            in_word = true;
        }
        i += 1;
    }
    assert(line@.take(chars.len() as int) == line@);
    if in_word {
        let ghost before = texts(out@);
        out.push(word);
        assert(texts(out@) == before.push(out@.last()@));
    }
    out
}

/// Every element of `words(s)` is a word.
proof fn lemma_words_are_words(s: Seq<char>)
    ensures
        all_words(words(s)),
        s.len() > 0 && !white_space(s.last()) ==> words(s).len() > 0,
    decreases s.len(),
{
    if s.len() > 0 {
        lemma_words_are_words(s.drop_last());
        let init = words(s.drop_last());
        if !white_space(s.last()) && s.len() >= 2 && !white_space(s[s.len() - 2]) {
            assert(s.drop_last().last() == s[s.len() - 2]);
            let w = init.last().push(s.last());
            assert(is_word(init.last()));
            assert(is_word(w));
        } else if !white_space(s.last()) {
            assert(is_word(seq![s.last()]));
        }
    }
}

/// Appending a word after whitespace, or to nothing, adds one word.
proof fn lemma_words_append(a: Seq<char>, w: Seq<char>)
    requires
        is_word(w),
        a.len() == 0 || white_space(a.last()),
    ensures
        words(a + w) == words(a).push(w),
    decreases w.len(),
{
    let s = a + w;
    assert(s.drop_last() == a + w.drop_last());
    assert(s.last() == w.last());
    if w.len() == 1 {
        assert(a + w.drop_last() == a);
        assert(w == seq![w.last()]);
        if a.len() > 0 {
            assert(s[s.len() - 2] == a.last());
        }
    } else {
        let v = w.drop_last();
        assert(is_word(v));
        lemma_words_append(a, v);
        assert(s[s.len() - 2] == v.last());
        assert(words(a).push(v).drop_last() == words(a));
        assert(v.push(w.last()) == w);
    }
}

/// Joining words by single spaces and splitting again gives the words back.
pub proof fn lemma_words_of_join(ws: Seq<Seq<char>>)
    requires
        all_words(ws),
    ensures
        words(join(ws, space())) == ws,
    decreases ws.len(),
{
    if ws.len() == 0 {
    } else if ws.len() == 1 {
        lemma_words_append(Seq::empty(), ws[0]);
        assert(Seq::<char>::empty() + ws[0] == ws[0]);
        assert(Seq::<Seq<char>>::empty().push(ws[0]) == ws);
    } else {
        let init = ws.drop_last();
        assert(all_words(init));
        lemma_words_of_join(init);
        let a = join(init, space()) + space();
        assert(a.drop_last() == join(init, space()));
        assert(a.last() == ' ');
        assert(words(a) == init);
        lemma_words_append(a, ws.last());
        assert(init.push(ws.last()) == ws);
    }
}

/// The join of a concatenation is the join of the joins.
proof fn lemma_join_concat(a: Seq<Seq<char>>, b: Seq<Seq<char>>, sep: Seq<char>)
    requires
        a.len() > 0,
        b.len() > 0,
    ensures
        join(a + b, sep) == join(a, sep) + sep + join(b, sep),
    decreases b.len(),
{
    let s = a + b;
    assert(s.drop_last() == a + b.drop_last());
    assert(s.last() == b.last());
    if b.len() == 1 {
        assert(a + b.drop_last() == a);
    } else {
        lemma_join_concat(a, b.drop_last(), sep);
    }
}

/// Joining the chunks of some groups joins all their words.
proof fn lemma_join_joined(gs: Seq<Seq<Seq<char>>>)
    requires
        forall|i: int| 0 <= i < gs.len() ==> (#[trigger] gs[i]).len() > 0,
    ensures
        join(joined(gs), space()) == join(gs.flatten(), space()),
    decreases gs.len(),
{
    if gs.len() == 0 {
    } else if gs.len() == 1 {
        gs.lemma_flatten_one_element();
    } else {
        let init = gs.drop_last();
        lemma_join_joined(init);
        assert(joined(gs).drop_last() == joined(init));
        assert(gs == init.push(gs.last()));
        init.lemma_flatten_push(gs.last());
        assert(init.flatten().len() > 0) by {
            init.lemma_flatten_length_ge_single_element_length(0);
        }
        lemma_join_concat(init.flatten(), gs.last(), space());
    }
}

/// What greedy packing keeps: every word, in order, each group non-empty,
/// made of words, and within the limit unless it is a single word.
proof fn lemma_pack(ws: Seq<Seq<char>>, pending: Seq<Seq<char>>, limit: nat)
    requires
        all_words(ws),
        all_words(pending),
        pending.len() > 0 ==> join(pending, space()).len() <= limit || pending.len() == 1,
    ensures
        pack(ws, pending, limit).flatten() == pending + ws,
        forall|i: int|
            0 <= i < pack(ws, pending, limit).len() ==> {
                let g = #[trigger] pack(ws, pending, limit)[i];
                &&& g.len() > 0
                &&& all_words(g)
                &&& (join(g, space()).len() <= limit || g.len() == 1)
            },
    decreases ws.len(),
{
    let out = pack(ws, pending, limit);
    if ws.len() == 0 {
        assert(pending + ws == pending);
        if pending.len() > 0 {
            out.lemma_flatten_one_element();
        }
    } else {
        let rest = ws.drop_first();
        assert(all_words(rest));
        assert(is_word(ws[0]));
        if pending.len() > 0 && join(pending, space()).len() + 1 + ws[0].len() > limit {
            let tail = pack(rest, seq![ws[0]], limit);
            assert(all_words(seq![ws[0]]));
            lemma_pack(rest, seq![ws[0]], limit);
            vstd::seq_lib::lemma_flatten_concat(seq![pending], tail);
            seq![pending].lemma_flatten_one_element();
            assert(pending + (seq![ws[0]] + rest) == pending + ws);
            assert forall|i: int| 0 <= i < out.len() implies {
                let g = #[trigger] out[i];
                &&& g.len() > 0
                &&& all_words(g)
                &&& (join(g, space()).len() <= limit || g.len() == 1)
            } by {
                if i > 0 {
                    assert(out[i] == tail[i - 1]);
                }
            }
        } else {
            let next = pending.push(ws[0]);
            assert(all_words(next));
            assert(next.drop_last() == pending);
            lemma_pack(rest, next, limit);
            assert(next + rest == pending + ws);
        }
    }
}

/// Chunking keeps the words of a line. Joining the chunks by single spaces
/// and splitting the result into words gives the words of the line; the
/// groups, one after another, are the words of the line; the words of a chunk
/// are those of its group, so no word is cut; and a chunk is longer than
/// `CHUNK_LIMIT` only where it is a single word.
pub proof fn lemma_chunks_keep_words(line: Seq<char>)
    ensures
        words(join(chunks(line), space())) == words(line),
        groups(line).flatten() == words(line),
        chunks(line).len() == groups(line).len(),
        forall|i: int|
            0 <= i < chunks(line).len() ==> words(#[trigger] chunks(line)[i]) == groups(line)[i],
        forall|i: int|
            0 <= i < chunks(line).len() ==> (#[trigger] chunks(line)[i]).len() <= CHUNK_LIMIT
                || groups(line)[i].len() == 1,
{
    let ws = words(line);
    let gs = groups(line);
    lemma_words_are_words(line);
    lemma_pack(ws, Seq::empty(), CHUNK_LIMIT as nat);
    assert(Seq::<Seq<char>>::empty() + ws == ws);
    lemma_join_joined(gs);
    lemma_words_of_join(ws);
    assert forall|i: int| 0 <= i < chunks(line).len() implies words(#[trigger] chunks(line)[i])
        == groups(line)[i] by {
        assert(all_words(gs[i]));
        lemma_words_of_join(gs[i]);
    }
    assert forall|i: int| 0 <= i < chunks(line).len() implies (#[trigger] chunks(line)[i]).len()
        <= CHUNK_LIMIT || groups(line)[i].len() == 1 by {
        assert(gs[i].len() > 0);
    }
}

/// Cuts `line` into the chunks it is sent in.
pub fn chunk_line(line: &str) -> (out: Vec<String>)
    ensures
        texts(out@) == chunks(line@),
{
    let ws = split_words(line);
    let mut out: Vec<String> = Vec::new();
    let mut pending = String::new();
    let mut pending_len: usize = 0;
    let ghost mut pending_words: Seq<Seq<char>> = Seq::empty();
    let ghost mut done: Seq<Seq<Seq<char>>> = Seq::empty();
    let mut i: usize = 0;
    proof {
        lemma_words_are_words(line@);
        assert(texts(ws@).skip(0) == texts(ws@));
    }
    while i < ws.len()
        invariant
            i <= ws.len(),
            texts(ws@) == words(line@),
            all_words(texts(ws@)),
            pending@ == join(pending_words, space()),
            pending_len == pending@.len(),
            pending_words.len() > 0 ==> pending_len > 0,
            pending_words.len() == 0 ==> pending_len == 0,
            done.len() == out@.len(),
            forall|k: int| 0 <= k < done.len() ==> out@[k]@ == join(#[trigger] done[k], space()),
            done + pack(texts(ws@).skip(i as int), pending_words, CHUNK_LIMIT as nat) == groups(
                line@,
            ),
        decreases ws.len() - i,
    {
        let w = ws[i].as_str();
        let w_len = w.unicode_len();
        proof {
            let rest = texts(ws@).skip(i as int);
            assert(rest[0] == w@);
            assert(is_word(texts(ws@)[i as int]));
            assert(rest.drop_first() == texts(ws@).skip(i + 1));
            assert(pending_words.push(w@).drop_last() == pending_words);
            assert(seq![w@].drop_last() == Seq::<Seq<char>>::empty());
        }
        let fits = pending_len < CHUNK_LIMIT && w_len <= CHUNK_LIMIT - 1 - pending_len;
        if pending_len > 0 && !fits {
            out.push(pending);
            proof {
                done = done.push(pending_words);
                pending_words = seq![w@];
                assert(done.drop_last() + (seq![done.last()] + pack(
                    texts(ws@).skip(i + 1),
                    pending_words,
                    CHUNK_LIMIT as nat,
                )) == done + pack(texts(ws@).skip(i + 1), pending_words, CHUNK_LIMIT as nat));
            }
            pending = String::new();
            pending.append(w);
            pending_len = w_len;
        } else {
            if pending_len > 0 {
                pending.push(' ');
                pending_len += 1;
            }
            pending.append(w);
            pending_len += w_len;
            proof {
                pending_words = pending_words.push(w@);
            }
        }
        i += 1;
    }
    if pending_len > 0 {
        out.push(pending);
        proof {
            done = done.push(pending_words);
        }
    }
    proof {
        assert(texts(ws@).skip(ws.len() as int).len() == 0);
        assert(texts(out@) =~= chunks(line@));
    }
    out
}

} // verus!

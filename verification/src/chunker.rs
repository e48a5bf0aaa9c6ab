//! Splitting long texts into bounded chunks.

use vstd::prelude::*;
use crate::text::{append_chars, joined, lemma_joined_front, string_of, to_chars};

verus! {

/// The width used when a text is cut at character boundaries: `max_chars`,
/// or one character where `max_chars` is zero.
pub open spec fn piece_width(max_chars: nat) -> nat {
    if max_chars == 0 {
        1
    } else {
        max_chars
    }
}

/// Number of pieces that a text of `len` characters is cut into.
pub open spec fn piece_count(len: nat, max_chars: nat) -> nat {
    ((len + piece_width(max_chars) - 1) / (piece_width(max_chars) as int)) as nat
}

/// The `i`-th piece of `s` when cut every `piece_width(max_chars)` characters.
pub open spec fn piece(s: Seq<char>, max_chars: nat, i: int) -> Seq<char> {
    let w = piece_width(max_chars) as int;
    let end = if (i + 1) * w <= s.len() { (i + 1) * w } else { s.len() as int };
    s.subrange(i * w, end)
}

/// `s` cut at character boundaries into pieces of `piece_width(max_chars)`
/// characters; the last piece holds what is left.
pub open spec fn hard_split(s: Seq<char>, max_chars: nat) -> Seq<Seq<char>> {
    Seq::new(piece_count(s.len(), max_chars), |i: int| piece(s, max_chars, i))
}

/// Every piece of a hard split has between one and `piece_width` characters.
pub proof fn lemma_piece_len(s: Seq<char>, max_chars: nat, i: int)
    requires
        0 <= i < piece_count(s.len(), max_chars),
    ensures
        1 <= piece(s, max_chars, i).len() <= piece_width(max_chars),
        i * piece_width(max_chars) < s.len(),
{
    let w = piece_width(max_chars) as int;
    let n = s.len() as int;
    assert(i * w < n && (i + 1) * w == i * w + w) by (nonlinear_arith)
        requires
            0 <= i < (n + w - 1) / w,
            w >= 1,
    ;
}

/// The first `k` pieces of a hard split, put together, are the text up to
/// the end of the last of them.
proof fn lemma_pieces_prefix(s: Seq<char>, max_chars: nat, k: nat)
    requires
        k <= piece_count(s.len(), max_chars),
    ensures
        k < piece_count(s.len(), max_chars) ==> joined(
            hard_split(s, max_chars).take(k as int),
            Seq::empty(),
        ) == s.take((k * piece_width(max_chars)) as int),
        k == piece_count(s.len(), max_chars) ==> joined(
            hard_split(s, max_chars).take(k as int),
            Seq::empty(),
        ) == s,
    decreases k,
{
    let w = piece_width(max_chars) as int;
    let n = s.len() as int;
    let pieces = hard_split(s, max_chars);
    if k == 0 {
        assert(s.take(0) =~= Seq::<char>::empty());
        if piece_count(s.len(), max_chars) == 0 {
            assert(n == 0) by (nonlinear_arith)
                requires
                    (n + w - 1) / w == 0,
                    w >= 1,
                    n >= 0,
            ;
            assert(s =~= Seq::<char>::empty());
        }
    } else {
        let j = (k - 1) as int;
        lemma_pieces_prefix(s, max_chars, j as nat);
        lemma_piece_len(s, max_chars, j);
        assert(pieces.take(k as int).drop_last() =~= pieces.take(j));
        assert(pieces.take(k as int).last() == piece(s, max_chars, j));
        assert((j + 1) * w == j * w + w) by (nonlinear_arith);
        if j == 0 {
            assert(0 * w == 0);
        }
        if k < piece_count(s.len(), max_chars) {
            lemma_piece_len(s, max_chars, k as int);
            assert(joined(pieces.take(k as int), Seq::empty()) =~= s.take(k * w));
        } else {
            assert(n <= j * w + w) by (nonlinear_arith)
                requires
                    j + 1 == (n + w - 1) / w,
                    w >= 1,
            ;
            assert(joined(pieces.take(k as int), Seq::empty()) =~= s);
        }
    }
}

/// The pieces of a hard split, put together in order, are the text.
pub proof fn lemma_pieces_rejoin(s: Seq<char>, max_chars: nat)
    ensures
        joined(hard_split(s, max_chars), Seq::empty()) == s,
{
    let pieces = hard_split(s, max_chars);
    lemma_pieces_prefix(s, max_chars, piece_count(s.len(), max_chars));
    assert(pieces.take(pieces.len() as int) =~= pieces);
}

/// Appends the pieces of `chars[from..to]` to `out`.
fn push_pieces(chars: &Vec<char>, from: usize, to: usize, max_chars: usize, out: &mut Vec<String>)
    requires
        from <= to <= chars.len(),
    ensures
        final(out).deep_view() == old(out).deep_view() + hard_split(
            chars@.subrange(from as int, to as int),
            max_chars as nat,
        ),
{
    let width: usize = if max_chars == 0 { 1 } else { max_chars };
    let ghost s = chars@.subrange(from as int, to as int);
    let ghost before = out.deep_view();
    let mut start: usize = from;
    let ghost mut k: int = 0;
    proof {
        if from == to {
            let w = width as int;
            assert((0 + w - 1) / w == 0) by (nonlinear_arith)
                requires
                    w >= 1,
            ;
        }
        assert(out.deep_view() =~= before + hard_split(s, max_chars as nat).take(0));
    }
    while start < to
        invariant
            from <= start <= to <= chars.len(),
            width == piece_width(max_chars as nat),
            width >= 1,
            s == chars@.subrange(from as int, to as int),
            0 <= k,
            start < to ==> start - from == k * width,
            start == to ==> k == piece_count(s.len(), max_chars as nat),
            k <= piece_count(s.len(), max_chars as nat),
            out.deep_view() == before + hard_split(s, max_chars as nat).take(k),
        decreases to - start,
    {
        let end: usize = if to - start <= width { to } else { start + width };
        let part = string_of(chars, start, end);
        proof {
            let w = width as int;
            let n = s.len() as int;
            assert((k + 1) * w == k * w + w) by (nonlinear_arith);
            assert(k < piece_count(s.len(), max_chars as nat)) by (nonlinear_arith)
                requires
                    k * w < n,
                    w >= 1,
                    k >= 0,
                    piece_count(s.len(), max_chars as nat) == (n + w - 1) / w,
            ;
            assert(part@ =~= piece(s, max_chars as nat, k));
            if end == to {
                assert(k + 1 == piece_count(s.len(), max_chars as nat)) by (nonlinear_arith)
                    requires
                        k * w < n,
                        n <= k * w + w,
                        w >= 1,
                        k >= 0,
                        piece_count(s.len(), max_chars as nat) == (n + w - 1) / w,
                ;
            }
        }
        let ghost prev = out.deep_view();
        out.push(part);
        proof {
            assert(out.deep_view() =~= prev.push(part@));
            assert(hard_split(s, max_chars as nat).take(k + 1) =~= hard_split(
                s,
                max_chars as nat,
            ).take(k).push(piece(s, max_chars as nat, k)));
            k = k + 1;
        }
        start = end;
    }
    assert(hard_split(s, max_chars as nat).take(k) =~= hard_split(s, max_chars as nat));
}

/// Cuts `text` at character boundaries into pieces of `max_chars` characters
/// (of one character where `max_chars` is zero). Every piece but the last is
/// full; an empty text gives no piece.
pub fn split_by_chars(text: &str, max_chars: usize) -> (parts: Vec<String>)
    ensures
        parts.deep_view() == hard_split(text@, max_chars as nat),
        parts.len() == piece_count(text@.len(), max_chars as nat),
        forall|i: int|
            0 <= i < parts.len() ==> 1 <= (#[trigger] parts[i])@.len() <= piece_width(
                max_chars as nat,
            ),
{
    proof {
        assert forall|i: int| 0 <= i < piece_count(text@.len(), max_chars as nat) implies 1 <= (
        #[trigger] hard_split(text@, max_chars as nat)[i]).len() <= piece_width(
            max_chars as nat,
        ) by {
            lemma_piece_len(text@, max_chars as nat, i);
        }
    }
    let chars = to_chars(text);
    let mut parts: Vec<String> = Vec::new();
    assert(chars@.subrange(0, chars.len() as int) =~= text@);
    assert(parts.deep_view() =~= Seq::<Seq<char>>::empty());
    push_pieces(&chars, 0, chars.len(), max_chars, &mut parts);
    assert(Seq::<Seq<char>>::empty() + hard_split(text@, max_chars as nat) =~= hard_split(
        text@,
        max_chars as nat,
    ));
    assert forall|i: int| 0 <= i < parts.len() implies 1 <= (#[trigger] parts[i])@.len()
        <= piece_width(max_chars as nat) by {
        assert(parts.deep_view()[i] == parts[i]@);
    }
    parts
}

/// The separator between paragraphs: a blank line.
pub open spec fn separator() -> Seq<char> {
    seq!['\n', '\n']
}

/// The first index at or after `from` where a separator starts in `s`, or
/// `s.len()` where there is none.
pub open spec fn break_from(s: Seq<char>, from: int) -> int
    decreases s.len() - from,
{
    if from < 0 || from + 1 >= s.len() {
        s.len() as int
    } else if s[from] == '\n' && s[from + 1] == '\n' {
        from
    } else {
        break_from(s, from + 1)
    }
}

/// The paragraphs of `s` that start at or after `from`: the stretches between
/// separators, taken from left to right without overlap.
pub open spec fn paragraphs_from(s: Seq<char>, from: int) -> Seq<Seq<char>>
    decreases s.len() - from,
{
    let b = break_from(s, from);
    if 0 <= from <= b && b + 2 <= s.len() {
        seq![s.subrange(from, b)] + paragraphs_from(s, b + 2)
    } else {
        seq![s.subrange(from, s.len() as int)]
    }
}

/// The paragraphs of `s`. There is always at least one; a text without a
/// separator is its own single paragraph.
pub open spec fn paragraphs(s: Seq<char>) -> Seq<Seq<char>> {
    paragraphs_from(s, 0)
}

/// Chunks already closed, and the chunk being filled. An empty `current`
/// means that no chunk is being filled.
pub struct Packing {
    pub chunks: Seq<Seq<char>>,
    pub current: Seq<char>,
}

/// The closed chunks of `st`, with the chunk being filled closed too.
pub open spec fn flush(st: Packing) -> Seq<Seq<char>> {
    if st.current.len() > 0 {
        st.chunks.push(st.current)
    } else {
        st.chunks
    }
}

/// Adds paragraph `p` to `st`. A paragraph longer than `max_chars` closes the
/// chunk being filled and is cut into pieces of its own. Another paragraph
/// joins the chunk being filled where it fits behind a separator, and else
/// closes that chunk and starts the next.
pub open spec fn pack_one(st: Packing, p: Seq<char>, max_chars: nat) -> Packing {
    if p.len() > max_chars {
        Packing { chunks: flush(st) + hard_split(p, max_chars), current: Seq::empty() }
    } else if st.current.len() > 0 && st.current.len() + 2 + p.len() > max_chars {
        Packing { chunks: st.chunks.push(st.current), current: p }
    } else if st.current.len() > 0 {
        Packing { chunks: st.chunks, current: st.current + separator() + p }
    } else {
        Packing { chunks: st.chunks, current: p }
    }
}

/// The paragraphs packed greedily, from left to right.
pub open spec fn pack(paragraphs: Seq<Seq<char>>, max_chars: nat) -> Packing
    decreases paragraphs.len(),
{
    if paragraphs.len() == 0 {
        Packing { chunks: Seq::empty(), current: Seq::empty() }
    } else {
        pack_one(pack(paragraphs.drop_last(), max_chars), paragraphs.last(), max_chars)
    }
}

/// The chunks of `s`: `s` itself where it has at most `max_chars`
/// characters, and else its paragraphs packed greedily.
pub open spec fn chunks_of(s: Seq<char>, max_chars: nat) -> Seq<Seq<char>> {
    if s.len() <= max_chars {
        seq![s]
    } else {
        flush(pack(paragraphs(s), max_chars))
    }
}

/// With `max_chars` of at least one, no chunk being built or closed by
/// `pack` is longer than `max_chars`, and no closed chunk is empty.
pub proof fn lemma_pack_bounded(paragraphs: Seq<Seq<char>>, max_chars: nat)
    ensures
        pack(paragraphs, max_chars).current.len() <= max_chars,
        forall|i: int|
            0 <= i < pack(paragraphs, max_chars).chunks.len() ==> 1 <= (#[trigger] pack(
                paragraphs,
                max_chars,
            ).chunks[i]).len() <= piece_width(max_chars),
    decreases paragraphs.len(),
{
    if paragraphs.len() > 0 {
        let before = pack(paragraphs.drop_last(), max_chars);
        let p = paragraphs.last();
        let after = pack(paragraphs, max_chars);
        lemma_pack_bounded(paragraphs.drop_last(), max_chars);
        assert forall|i: int| 0 <= i < after.chunks.len() implies 1 <= (#[trigger] after.chunks[i]).len()
            <= piece_width(max_chars) by {
            if p.len() > max_chars {
                let closed = flush(before);
                if i >= closed.len() {
                    lemma_piece_len(p, max_chars, i - closed.len());
                    assert(after.chunks[i] == piece(p, max_chars, i - closed.len()));
                } else if i < before.chunks.len() {
                    assert(after.chunks[i] == before.chunks[i]);
                }
            } else if i < before.chunks.len() {
                assert(after.chunks[i] == before.chunks[i]);
            }
        }
    }
}

/// `break_from` lies between `from` and the length of `s`; a separator
/// starts there where it is below the length, and none starts earlier.
pub proof fn lemma_break_from(s: Seq<char>, from: int)
    requires
        0 <= from <= s.len(),
    ensures
        from <= break_from(s, from) <= s.len(),
        break_from(s, from) < s.len() ==> break_from(s, from) + 2 <= s.len() && s.subrange(
            break_from(s, from),
            break_from(s, from) + 2,
        ) == separator(),
        forall|i: int|
            from <= i < break_from(s, from) && i + 1 < s.len() ==> !(s[i] == '\n' && #[trigger] s[i
                + 1] == '\n'),
    decreases s.len() - from,
{
    if from + 1 < s.len() {
        if s[from] == '\n' && s[from + 1] == '\n' {
            assert(s.subrange(from, from + 2) =~= separator());
        } else {
            lemma_break_from(s, from + 1);
        }
    }
}

/// Joining the paragraphs of a text by the separator gives the text back.
pub proof fn lemma_paragraphs_rejoin(s: Seq<char>, from: int)
    requires
        0 <= from <= s.len(),
    ensures
        paragraphs_from(s, from).len() >= 1,
        joined(paragraphs_from(s, from), separator()) == s.subrange(from, s.len() as int),
    decreases s.len() - from,
{
    lemma_break_from(s, from);
    let b = break_from(s, from);
    if b + 2 <= s.len() {
        lemma_paragraphs_rejoin(s, b + 2);
        lemma_joined_front(s.subrange(from, b), paragraphs_from(s, b + 2), separator());
        assert(s.subrange(from, s.len() as int) =~= s.subrange(from, b) + s.subrange(b, b + 2)
            + s.subrange(b + 2, s.len() as int));
    }
}

/// Whether packing drops no paragraph: every empty paragraph comes when a
/// chunk is being filled that has room for a separator. An empty paragraph
/// that comes when no chunk is being filled, or when the chunk has no room
/// left, leaves no trace in the chunks.
pub open spec fn keeps_all(paragraphs: Seq<Seq<char>>, max_chars: nat) -> bool
    decreases paragraphs.len(),
{
    if paragraphs.len() == 0 {
        true
    } else {
        let before = pack(paragraphs.drop_last(), max_chars);
        &&& keeps_all(paragraphs.drop_last(), max_chars)
        &&& paragraphs.last().len() > 0 || (before.current.len() > 0 && before.current.len() + 2
            <= max_chars)
    }
}

/// Whether no paragraph is longer than `max_chars`.
pub open spec fn all_fit(paragraphs: Seq<Seq<char>>, max_chars: nat) -> bool {
    forall|i: int| 0 <= i < paragraphs.len() ==> (#[trigger] paragraphs[i]).len() <= max_chars
}

/// Paragraphs of which none is empty are all kept.
pub proof fn lemma_nonempty_kept(paragraphs: Seq<Seq<char>>, max_chars: nat)
    requires
        forall|i: int| 0 <= i < paragraphs.len() ==> (#[trigger] paragraphs[i]).len() > 0,
    ensures
        keeps_all(paragraphs, max_chars),
    decreases paragraphs.len(),
{
    if paragraphs.len() > 0 {
        let front = paragraphs.drop_last();
        assert forall|i: int| 0 <= i < front.len() implies (#[trigger] front[i]).len() > 0 by {
            assert(front[i] == paragraphs[i]);
        }
        lemma_nonempty_kept(front, max_chars);
    }
}

/// Joining with a longer last part: what is added to the last part is added
/// to the whole.
proof fn lemma_joined_grow(parts: Seq<Seq<char>>, last: Seq<char>, more: Seq<char>, sep: Seq<char>)
    ensures
        joined(parts.push(last + more), sep) == joined(parts.push(last), sep) + more,
{
    assert(parts.push(last + more).drop_last() =~= parts);
    assert(parts.push(last).drop_last() =~= parts);
    if parts.len() > 0 {
        assert(joined(parts.push(last + more), sep) =~= joined(parts.push(last), sep) + more);
    }
}

/// Where paragraphs that all fit are all kept, their chunks joined by the
/// separator are the paragraphs joined by the separator.
pub proof fn lemma_pack_rejoins(paragraphs: Seq<Seq<char>>, max_chars: nat)
    requires
        all_fit(paragraphs, max_chars),
        keeps_all(paragraphs, max_chars),
    ensures
        joined(flush(pack(paragraphs, max_chars)), separator()) == joined(paragraphs, separator()),
        paragraphs.len() > 0 ==> flush(pack(paragraphs, max_chars)).len() > 0,
    decreases paragraphs.len(),
{
    if paragraphs.len() > 0 {
        let front = paragraphs.drop_last();
        let p = paragraphs.last();
        let before = pack(front, max_chars);
        let after = pack(paragraphs, max_chars);
        let sep = separator();
        assert(all_fit(front, max_chars)) by {
            assert forall|i: int| 0 <= i < front.len() implies (#[trigger] front[i]).len()
                <= max_chars by {
                assert(front[i] == paragraphs[i]);
            }
        }
        assert(p == paragraphs[paragraphs.len() - 1]);
        lemma_pack_rejoins(front, max_chars);
        if before.current.len() > 0 && before.current.len() + 2 + p.len() > max_chars {
            assert(flush(after) =~= flush(before).push(p));
            assert(flush(after).drop_last() =~= flush(before));
        } else if before.current.len() > 0 {
            lemma_joined_grow(before.chunks, before.current, sep + p, sep);
            assert(before.current + sep + p =~= before.current + (sep + p));
            assert(joined(flush(before), sep) + (sep + p) =~= joined(flush(before), sep) + sep + p);
        } else {
            assert(flush(after) =~= flush(before).push(p));
            assert(flush(after).drop_last() =~= flush(before));
        }
    }
}

/// A text is its chunks joined by the separator, where it has at most
/// `max_chars` characters, or where its paragraphs all fit and are all kept.
pub proof fn lemma_chunks_rejoin(text: Seq<char>, max_chars: nat)
    requires
        text.len() > max_chars ==> all_fit(paragraphs(text), max_chars) && keeps_all(
            paragraphs(text),
            max_chars,
        ),
    ensures
        joined(chunks_of(text, max_chars), separator()) == text,
{
    if text.len() > max_chars {
        lemma_paragraphs_rejoin(text, 0);
        lemma_pack_rejoins(paragraphs(text), max_chars);
        assert(text.subrange(0, text.len() as int) =~= text);
    }
}

/// The characters of `parts`, counting two more behind each part.
pub open spec fn padded_len(parts: Seq<Seq<char>>) -> int
    decreases parts.len(),
{
    if parts.len() == 0 {
        0
    } else {
        padded_len(parts.drop_last()) + parts.last().len() + 2
    }
}

/// Parts joined by the separator have two characters less than with a
/// separator behind each.
proof fn lemma_joined_len(parts: Seq<Seq<char>>)
    ensures
        parts.len() == 0 ==> joined(parts, separator()).len() == 0 && padded_len(parts) == 0,
        parts.len() > 0 ==> joined(parts, separator()).len() + 2 == padded_len(parts),
    decreases parts.len(),
{
    if parts.len() > 0 {
        lemma_joined_len(parts.drop_last());
        assert(padded_len(parts.drop_last()) >= 0);
    }
}

/// Packing paragraphs that all fit loses two characters for every paragraph
/// that it drops, and none else.
proof fn lemma_pack_len(paragraphs: Seq<Seq<char>>, max_chars: nat)
    requires
        all_fit(paragraphs, max_chars),
    ensures
        keeps_all(paragraphs, max_chars) ==> padded_len(flush(pack(paragraphs, max_chars)))
            == padded_len(paragraphs),
        !keeps_all(paragraphs, max_chars) ==> padded_len(flush(pack(paragraphs, max_chars))) + 2
            <= padded_len(paragraphs),
    decreases paragraphs.len(),
{
    if paragraphs.len() > 0 {
        let front = paragraphs.drop_last();
        let p = paragraphs.last();
        let before = pack(front, max_chars);
        let after = pack(paragraphs, max_chars);
        assert(all_fit(front, max_chars)) by {
            assert forall|i: int| 0 <= i < front.len() implies (#[trigger] front[i]).len()
                <= max_chars by {
                assert(front[i] == paragraphs[i]);
            }
        }
        assert(p == paragraphs[paragraphs.len() - 1]);
        lemma_pack_len(front, max_chars);
        if before.current.len() > 0 && before.current.len() + 2 + p.len() > max_chars {
            if p.len() > 0 {
                assert(flush(after) =~= flush(before).push(p));
                assert(flush(after).drop_last() =~= flush(before));
            } else {
                assert(flush(after) =~= flush(before));
            }
        } else if before.current.len() > 0 {
            let grown = before.current + separator() + p;
            assert(flush(after) =~= before.chunks.push(grown));
            assert(flush(after).drop_last() =~= before.chunks);
            assert(flush(before).drop_last() =~= before.chunks);
        } else {
            if p.len() > 0 {
                assert(flush(after) =~= flush(before).push(p));
                assert(flush(after).drop_last() =~= flush(before));
            } else {
                assert(flush(after) =~= flush(before));
            }
        }
    }
}

/// For a text longer than `max_chars` whose paragraphs all fit, the chunks
/// joined by the separator are the text exactly where packing keeps every
/// paragraph.
pub proof fn lemma_chunks_rejoin_exactly(text: Seq<char>, max_chars: nat)
    requires
        text.len() > max_chars,
        all_fit(paragraphs(text), max_chars),
    ensures
        joined(chunks_of(text, max_chars), separator()) == text <==> keeps_all(
            paragraphs(text),
            max_chars,
        ),
{
    let ps = paragraphs(text);
    if keeps_all(ps, max_chars) {
        lemma_chunks_rejoin(text, max_chars);
    } else {
        lemma_paragraphs_rejoin(text, 0);
        assert(text.subrange(0, text.len() as int) =~= text);
        lemma_pack_len(ps, max_chars);
        lemma_joined_len(ps);
        lemma_joined_len(chunks_of(text, max_chars));
    }
}

/// A text of a single paragraph that is longer than `max_chars` is cut at
/// character boundaries: it gives `piece_count` chunks, of which each but
/// the last has `piece_width` characters and the last has what is left.
pub proof fn lemma_single_paragraph(text: Seq<char>, max_chars: nat)
    requires
        text.len() > max_chars,
        break_from(text, 0) >= text.len(),
    ensures
        chunks_of(text, max_chars) == hard_split(text, max_chars),
        chunks_of(text, max_chars).len() == piece_count(text.len(), max_chars),
        forall|i: int|
            0 <= i < chunks_of(text, max_chars).len() ==> 1 <= (#[trigger] chunks_of(
                text,
                max_chars,
            )[i]).len() <= piece_width(max_chars),
{
    let ps = paragraphs(text);
    assert(text.subrange(0, text.len() as int) =~= text);
    assert(ps =~= seq![text]);
    assert(ps.drop_last() =~= Seq::<Seq<char>>::empty());
    let start = pack(ps.drop_last(), max_chars);
    assert(pack(ps, max_chars) == pack_one(start, text, max_chars));
    assert(flush(start) =~= Seq::<Seq<char>>::empty());
    assert(chunks_of(text, max_chars) =~= hard_split(text, max_chars));
    assert forall|i: int| 0 <= i < hard_split(text, max_chars).len() implies 1 <= (
    #[trigger] hard_split(text, max_chars)[i]).len() <= piece_width(max_chars) by {
        lemma_piece_len(text, max_chars, i);
    }
}

/// The start of the first separator in `chars` at or after `from`, or the
/// length of `chars` where there is none.
fn find_break(chars: &Vec<char>, from: usize) -> (b: usize)
    requires
        from <= chars.len(),
    ensures
        b == break_from(chars@, from as int),
        from <= b <= chars.len(),
        b < chars.len() ==> b + 2 <= chars.len(),
{
    let n = chars.len();
    let mut i: usize = from;
    while i < n && i + 1 < n
        invariant
            from <= i <= n == chars.len(),
            break_from(chars@, from as int) == break_from(chars@, i as int),
        decreases n - i,
    {
        if chars[i] == '\n' && chars[i + 1] == '\n' {
            return i;
        }
        i += 1;
    }
    n
}

/// Splits `text` into chunks for the provider.
///
/// A text of at most `max_chars` characters is returned whole, as the only
/// chunk. A longer one is split at blank lines into paragraphs, which are
/// packed greedily, in order, into chunks of at most `max_chars` characters,
/// joined by a blank line inside a chunk; a paragraph that is itself longer
/// than `max_chars` is cut at character boundaries into chunks of its own.
pub fn split_text(text: &str, max_chars: usize) -> (chunks: Vec<String>)
    ensures
        chunks.deep_view() == chunks_of(text@, max_chars as nat),
        text@.len() <= max_chars ==> chunks.len() == 1 && chunks[0]@ == text@,
        forall|i: int|
            0 <= i < chunks.len() ==> (#[trigger] chunks[i])@.len() <= max_chars || (max_chars == 0
                && chunks[i]@.len() == 1),
{
    let chars = to_chars(text);
    let n = chars.len();
    let mut chunks: Vec<String> = Vec::new();
    if n <= max_chars {
        let whole = string_of(&chars, 0, n);
        assert(whole@ =~= text@);
        chunks.push(whole);
        assert(chunks.deep_view() =~= seq![text@]);
        return chunks;
    }
    let mut current = String::new();
    let mut current_len: usize = 0;
    let mut pos: usize = 0;
    let ghost mut done: Seq<Seq<char>> = Seq::empty();
    assert(chunks.deep_view() =~= Seq::<Seq<char>>::empty());
    assert(paragraphs(text@) =~= done + paragraphs_from(text@, 0));
    loop
        invariant_except_break
            paragraphs(text@) == done + paragraphs_from(text@, pos as int),
        invariant
            pos <= n == chars.len(),
            chars@ == text@,
            current@.len() == current_len <= max_chars,
            pack(done, max_chars as nat) == (Packing {
                chunks: chunks.deep_view(),
                current: current@,
            }),
        ensures
            paragraphs(text@) == done,
        decreases n - pos,
    {
        let b = find_break(&chars, pos);
        let para_len: usize = b - pos;
        let ghost p = text@.subrange(pos as int, b as int);
        let ghost before = pack(done, max_chars as nat);
        let ghost closed = chunks.deep_view();
        if para_len > max_chars {
            if current_len > 0 {
                chunks.push(current);
                assert(chunks.deep_view() =~= closed.push(before.current));
                current = String::new();
                current_len = 0;
            }
            push_pieces(&chars, pos, b, max_chars, &mut chunks);
        } else {
            let room: usize = max_chars - current_len;
            if current_len > 0 && (room < 2 || para_len > room - 2) {
                chunks.push(current);
                assert(chunks.deep_view() =~= closed.push(before.current));
                current = string_of(&chars, pos, b);
                current_len = para_len;
            } else {
                if current_len > 0 {
                    current.push('\n');
                    current.push('\n');
                    current_len += 2;
                    assert(current@ =~= before.current + separator());
                }
                append_chars(&mut current, &chars, pos, b);
                current_len += para_len;
                assert(chunks.deep_view() =~= closed);
                assert(before.current.len() == 0 ==> current@ =~= p);
            }
        }
        proof {
            assert(done.push(p).drop_last() =~= done);
            let after = pack_one(before, p, max_chars as nat);
            assert(pack(done.push(p), max_chars as nat) == after);
            assert(after.chunks =~= chunks.deep_view());
            assert(after.current =~= current@);
            if b < n {
                assert(paragraphs(text@) =~= done.push(p) + paragraphs_from(text@, b + 2));
            } else {
                assert(paragraphs(text@) =~= done.push(p));
            }
            done = done.push(p);
        }
        if b >= n {
            break ;
        }
        pos = b + 2;
    }
    let ghost closed = chunks.deep_view();
    if current_len > 0 {
        chunks.push(current);
        assert(chunks.deep_view() =~= closed.push(current@));
    }
    proof {
        lemma_pack_bounded(done, max_chars as nat);
        let packed = pack(done, max_chars as nat);
        assert forall|i: int| 0 <= i < chunks.len() implies (#[trigger] chunks[i])@.len()
            <= max_chars || (max_chars == 0 && chunks[i]@.len() == 1) by {
            assert(chunks.deep_view()[i] == chunks[i]@);
            if i < packed.chunks.len() {
                assert(chunks.deep_view()[i] == packed.chunks[i]);
            }
        }
    }
    chunks
}

} // verus!

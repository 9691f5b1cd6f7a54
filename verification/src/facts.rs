//! Facts about the layout functions that the decoding steps rest on.

use crate::layout::{faces_of, run_length, scan_halts, word_at, word_bytes, words};
use vstd::prelude::*;

verus! {

/// A word of the input behind `m` words is word `m + k` of the whole input.
pub proof fn lemma_word_at_skip(bytes: Seq<u8>, m: int, k: int)
    requires
        0 <= m,
        0 <= k,
        4 * (m + k) + 4 <= bytes.len(),
    ensures
        word_at(bytes.skip(4 * m), k) == word_at(bytes, m + k),
{
    let tail = bytes.skip(4 * m);
    assert(tail[4 * k] == bytes[4 * (m + k)]);
    assert(tail[4 * k + 1] == bytes[4 * (m + k) + 1]);
    assert(tail[4 * k + 2] == bytes[4 * (m + k) + 2]);
    assert(tail[4 * k + 3] == bytes[4 * (m + k) + 3]);
}

/// The words of the input behind `m` words are the words of the whole input
/// from word `m` on.
pub proof fn lemma_words_skip(bytes: Seq<u8>, m: int, from: int, n: nat)
    requires
        0 <= m,
        0 <= from,
        4 * (m + from + n) <= bytes.len(),
    ensures
        words(bytes.skip(4 * m), from, n) == words(bytes, m + from, n),
{
    let behind = words(bytes.skip(4 * m), from, n);
    let whole = words(bytes, m + from, n);
    assert forall|i: int| 0 <= i < n implies #[trigger] behind[i] == whole[i] by {
        lemma_word_at_skip(bytes, m, from + i);
    }
    assert(behind =~= whole);
}

/// A scan passes over exactly the bytes in front of the first one on which it
/// halts.
pub proof fn lemma_run_length_split(passed: Seq<u8>, rest: Seq<u8>, mark: u8, on_mark: bool)
    requires
        forall|i: int| 0 <= i < passed.len() ==> !scan_halts(#[trigger] passed[i], mark, on_mark),
        rest.len() == 0 || scan_halts(rest[0], mark, on_mark),
    ensures
        run_length(passed + rest, mark, on_mark) == passed.len(),
    decreases passed.len(),
{
    let whole = passed + rest;
    if passed.len() == 0 {
        assert(whole =~= rest);
    } else {
        assert(whole[0] == passed[0]);
        assert(whole.skip(1) =~= passed.skip(1) + rest);
        assert forall|i: int| 0 <= i < passed.skip(1).len() implies !scan_halts(
            #[trigger] passed.skip(1)[i],
            mark,
            on_mark,
        ) by {
            assert(passed.skip(1)[i] == passed[i + 1]);
        }
        lemma_run_length_split(passed.skip(1), rest, mark, on_mark);
    }
}

/// A word that lies within the first `m` bytes does not depend on the bytes
/// behind them.
pub proof fn lemma_word_at_take(bytes: Seq<u8>, m: int, k: int)
    requires
        0 <= k,
        4 * k + 4 <= m <= bytes.len(),
    ensures
        word_at(bytes.take(m), k) == word_at(bytes, k),
{
    let front = bytes.take(m);
    assert(front[4 * k] == bytes[4 * k]);
    assert(front[4 * k + 1] == bytes[4 * k + 1]);
    assert(front[4 * k + 2] == bytes[4 * k + 2]);
    assert(front[4 * k + 3] == bytes[4 * k + 3]);
}

/// Words that lie within the first `m` bytes do not depend on the bytes behind
/// them.
pub proof fn lemma_words_take(bytes: Seq<u8>, m: int, from: int, n: nat)
    requires
        0 <= from,
        4 * (from + n) <= m <= bytes.len(),
    ensures
        words(bytes.take(m), from, n) == words(bytes, from, n),
{
    let front = words(bytes.take(m), from, n);
    let whole = words(bytes, from, n);
    assert forall|i: int| 0 <= i < n implies #[trigger] front[i] == whole[i] by {
        lemma_word_at_take(bytes, m, from + i);
    }
    assert(front =~= whole);
}

/// Faces that lie within the first `m` bytes do not depend on the bytes behind
/// them.
pub proof fn lemma_faces_of_take(bytes: Seq<u8>, m: int, count: nat, width: nat)
    requires
        4 * (count * width) <= m <= bytes.len(),
    ensures
        faces_of(bytes.take(m), count, width) == faces_of(bytes, count, width),
{
    let front = faces_of(bytes.take(m), count, width);
    let whole = faces_of(bytes, count, width);
    assert forall|f: int| 0 <= f < count implies #[trigger] front[f] == whole[f] by {
        assert(0 <= f * width && f * width + width <= count * width) by (nonlinear_arith)
            requires
                0 <= f < count,
                0 <= width,
        ;
        lemma_words_take(bytes, m, f * width, width);
    }
    assert(front =~= whole);
}

/// The four bytes of `word_bytes` read back as the word they were made from.
pub proof fn lemma_word_bytes_read_back(v: u32, rest: Seq<u8>)
    ensures
        word_bytes(v).len() == 4,
        word_at(word_bytes(v) + rest, 0) == v,
        (word_bytes(v) + rest).skip(4) == rest,
{
    let bytes = word_bytes(v) + rest;
    assert(bytes[0] == word_bytes(v)[0]);
    assert(bytes[1] == word_bytes(v)[1]);
    assert(bytes[2] == word_bytes(v)[2]);
    assert(bytes[3] == word_bytes(v)[3]);
    assert(bytes.skip(4) =~= rest);
}

/// A scan passes over bytes on which it does not halt, and where it stops
/// before the end of the input, it stops in front of a byte on which it halts.
pub proof fn lemma_run_length_meaning(input: Seq<u8>, mark: u8, on_mark: bool)
    ensures
        run_length(input, mark, on_mark) <= input.len(),
        forall|i: int|
            0 <= i < run_length(input, mark, on_mark) ==> !scan_halts(
                #[trigger] input[i],
                mark,
                on_mark,
            ),
        run_length(input, mark, on_mark) < input.len() ==> scan_halts(
            input[run_length(input, mark, on_mark) as int],
            mark,
            on_mark,
        ),
    decreases input.len(),
{
    if input.len() == 0 || scan_halts(input[0], mark, on_mark) {
    } else {
        let tail = input.skip(1);
        lemma_run_length_meaning(tail, mark, on_mark);
        let n = run_length(tail, mark, on_mark) as int;
        assert forall|i: int| 0 <= i < 1 + n implies !scan_halts(
            #[trigger] input[i],
            mark,
            on_mark,
        ) by {
            if i > 0 {
                assert(input[i] == tail[i - 1]);
            }
        }
        if n < tail.len() {
            assert(tail[n] == input[1 + n]);
        }
    }
}

/// A scan over the first `k` bytes of an input passes over as many bytes as
/// the scan over the whole input, or over all `k` where that is less.
pub proof fn lemma_run_length_take(input: Seq<u8>, mark: u8, on_mark: bool, k: int)
    requires
        0 <= k <= input.len(),
    ensures
        run_length(input.take(k), mark, on_mark) == if k < run_length(input, mark, on_mark) {
            k as nat
        } else {
            run_length(input, mark, on_mark)
        },
{
    let n = run_length(input, mark, on_mark) as int;
    lemma_run_length_meaning(input, mark, on_mark);
    if k <= n {
        assert(input.take(k) + Seq::<u8>::empty() =~= input.take(k));
        lemma_run_length_split(input.take(k), Seq::empty(), mark, on_mark);
    } else {
        let passed = input.take(n);
        let rest = input.subrange(n, k);
        assert(rest[0] == input[n]);
        assert(passed + rest =~= input.take(k));
        lemma_run_length_split(passed, rest, mark, on_mark);
    }
}

} // verus!

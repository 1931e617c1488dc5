//! Deterministic hex-dump rendering: one line per sixteen bytes, each line
//! an address zero-padded to the platform address width, a colon, and two
//! lowercase hexadecimal digits per byte, and the proof that a rendered
//! dump can be read back to exactly the bytes it came from.

use vstd::prelude::*;
use vstd::string::*;

use crate::text::{append_digit, hex_char, hex_char_val, hex_pad, hex_pad_seq, lemma_hex_char_val,
    lemma_hex_pad_seq_len};

verus! {

/// The byte cells of one dump line: for each byte a space and its two
/// lowercase hexadecimal digits.
pub open spec fn bytes_part(rb: Seq<u8>) -> Seq<char> {
    Seq::new(
        (3 * rb.len()) as nat,
        |p: int|
            if p % 3 == 0 {
                ' '
            } else if p % 3 == 1 {
                hex_char((rb[p / 3] as nat) / 16)
            } else {
                hex_char((rb[p / 3] as nat) % 16)
            },
    )
}

/// One dump line: the row address as sixteen zero-padded hexadecimal
/// digits, a colon, then the byte cells.
pub open spec fn row_text(addr: nat, rb: Seq<u8>) -> Seq<char> {
    hex_pad_seq(addr, 16) + seq![':'] + bytes_part(rb)
}

/// The whole dump: sixteen bytes per line, lines separated by a newline,
/// the final partial line holding only the bytes present; no trailing
/// newline, and no text at all for an empty window.
pub open spec fn render_text(base: nat, bytes: Seq<u8>) -> Seq<char>
    decreases bytes.len(),
{
    if bytes.len() == 0 {
        Seq::empty()
    } else if bytes.len() <= 16 {
        row_text(base, bytes)
    } else {
        row_text(base, bytes.take(16)) + seq!['\n'] + render_text((base + 16) as nat, bytes.skip(16))
    }
}

/// A dump line for `n` bytes is exactly `17 + 3 * n` characters long.
pub proof fn lemma_row_len(addr: nat, rb: Seq<u8>)
    ensures
        row_text(addr, rb).len() == 17 + 3 * rb.len(),
{
    lemma_hex_pad_seq_len(addr, 16);
}

/// A rendered dump of a non-empty window is at least one line long.
pub proof fn lemma_render_len(base: nat, bytes: Seq<u8>)
    requires
        bytes.len() > 0,
    ensures
        render_text(base, bytes).len() >= 20,
{
    if bytes.len() <= 16 {
        lemma_row_len(base, bytes);
    } else {
        lemma_row_len(base, bytes.take(16));
    }
}

/// How many byte cells a dump line of the given length holds.
pub open spec fn line_byte_count(line: Seq<char>) -> nat {
    if line.len() >= 17 {
        (((line.len() - 17) as nat) / 3) as nat
    } else {
        0
    }
}

/// The byte read back from the two hexadecimal digits of cell `k`.
pub open spec fn line_byte_at(line: Seq<char>, k: int) -> u8 {
    (16 * hex_char_val(line[17 + 3 * k + 1]) + hex_char_val(line[17 + 3 * k + 2])) as u8
}

/// All bytes read back from one dump line.
pub open spec fn line_bytes(line: Seq<char>) -> Seq<u8> {
    Seq::new(line_byte_count(line), |k: int| line_byte_at(line, k))
}

/// The bytes read back from a rendered dump: full lines are 65 characters
/// wide, so the text splits at that width, dropping each newline.
pub open spec fn dump_bytes(s: Seq<char>) -> Seq<u8>
    decreases s.len(),
{
    if s.len() == 0 {
        Seq::empty()
    } else if s.len() <= 65 {
        line_bytes(s)
    } else {
        line_bytes(s.take(65)) + dump_bytes(s.skip(66))
    }
}

/// Reading the byte cells of one rendered line recovers the bytes of
/// that line exactly.
pub proof fn lemma_line_bytes_row(addr: nat, rb: Seq<u8>)
    requires
        rb.len() <= 16,
    ensures
        line_bytes(row_text(addr, rb)) == rb,
{
    let row = row_text(addr, rb);
    lemma_row_len(addr, rb);
    lemma_hex_pad_seq_len(addr, 16);
    assert(line_byte_count(row) == rb.len());
    assert forall|k: int| 0 <= k < rb.len() implies line_byte_at(row, k) == rb[k] by {
        let b = rb[k] as nat;
        assert(row[17 + 3 * k + 1] == bytes_part(rb)[3 * k + 1]);
        assert(row[17 + 3 * k + 2] == bytes_part(rb)[3 * k + 2]);
        assert((3 * k + 1) / 3 == k && (3 * k + 1) % 3 == 1);
        assert((3 * k + 2) / 3 == k && (3 * k + 2) % 3 == 2);
        lemma_hex_char_val(b / 16);
        lemma_hex_char_val(b % 16);
        assert(16 * (b / 16) + b % 16 == b);
    }
    assert(line_bytes(row) =~= rb);
}

/// Reading back a rendered dump recovers exactly the bytes rendered:
/// rendering is deterministic, and injective in the byte window.
pub proof fn lemma_render_round_trip(base: nat, bytes: Seq<u8>)
    ensures
        dump_bytes(render_text(base, bytes)) == bytes,
    decreases bytes.len(),
{
    let s = render_text(base, bytes);
    if bytes.len() == 0 {
        assert(dump_bytes(s) =~= bytes);
    } else if bytes.len() <= 16 {
        lemma_row_len(base, bytes);
        lemma_line_bytes_row(base, bytes);
    } else {
        let row = row_text(base, bytes.take(16));
        let rest = render_text((base + 16) as nat, bytes.skip(16));
        lemma_row_len(base, bytes.take(16));
        lemma_render_len((base + 16) as nat, bytes.skip(16));
        assert(s.len() > 65);
        assert(s.take(65) =~= row);
        assert(s.skip(66) =~= rest);
        lemma_line_bytes_row(base, bytes.take(16));
        lemma_render_round_trip((base + 16) as nat, bytes.skip(16));
        assert(dump_bytes(s) =~= bytes);
    }
}

/// Renders the dump of `bytes` as seen at address `base`.
pub fn render(base: usize, bytes: &Vec<u8>) -> (r: String)
    requires
        base + bytes@.len() <= usize::MAX,
    ensures
        r@ == render_text(base as nat, bytes@),
{
    let n = bytes.len();
    let mut out = String::new();
    let mut i: usize = 0;
    while i < n
        invariant
            n == bytes@.len(),
            base + n <= usize::MAX,
            i <= n,
            i == 0 ==> out@.len() == 0,
            0 < i < n ==> render_text(base as nat, bytes@) == out@ + seq!['\n'] + render_text(
                (base + i) as nat,
                bytes@.skip(i as int),
            ),
            i > 0 && i == n ==> render_text(base as nat, bytes@) == out@,
        decreases n - i,
    {
        let remaining: usize = n - i;
        let count: usize = if remaining > 16 {
            16
        } else {
            remaining
        };
        let end: usize = i + count;
        let ghost rb = bytes@.subrange(i as int, end as int);
        let ghost out0 = out@;
        if i > 0 {
            out.append("\n");
            proof {
                reveal_strlit("\n");
                assert(out@ =~= out0 + seq!['\n']);
            }
        }
        let ghost out1 = out@;
        let hx = hex_pad(base + i, 16);
        out.append(hx.as_str());
        out.append(":");
        proof {
            reveal_strlit(":");
            assert(out@ =~= out1 + hex_pad_seq((base + i) as nat, 16) + seq![':']);
        }
        let ghost out2 = out@;
        let mut j: usize = i;
        while j < end
            invariant
                i <= j <= end <= n,
                n == bytes@.len(),
                end - i <= 16,
                rb == bytes@.subrange(i as int, end as int),
                out@ == out2 + bytes_part(rb.subrange(0, j - i)),
            decreases end - j,
        {
            let b = bytes[j];
            assert(b == rb[j - i]);
            let ghost outp = out@;
            out.append(" ");
            append_digit(&mut out, b / 16);
            append_digit(&mut out, b % 16);
            proof {
                reveal_strlit(" ");
                let k = j - i;
                assert(out@ =~= outp + seq![
                    ' ',
                    hex_char((b as nat) / 16),
                    hex_char((b as nat) % 16),
                ]);
                assert(bytes_part(rb.subrange(0, k + 1)) =~= bytes_part(rb.subrange(0, k))
                    + seq![' ', hex_char((rb[k] as nat) / 16), hex_char((rb[k] as nat) % 16)]);
                assert(out@ =~= out2 + bytes_part(rb.subrange(0, k + 1)));
            }
            j += 1;
        }
        proof {
            assert(rb.subrange(0, (end - i) as int) =~= rb);
            assert(out@ =~= out1 + row_text((base + i) as nat, rb));
            let tail = bytes@.skip(i as int);
            assert(tail.len() == n - i);
            if remaining > 16 {
                assert(tail.take(16) =~= rb);
                assert(tail.skip(16) =~= bytes@.skip(end as int));
                assert(render_text((base + i) as nat, tail) == row_text((base + i) as nat, rb)
                    + seq!['\n'] + render_text((base + end) as nat, bytes@.skip(end as int)));
            } else {
                assert(tail =~= rb);
                assert(render_text((base + i) as nat, tail) == row_text((base + i) as nat, rb));
            }
            if i == 0 {
                assert(bytes@.skip(0) =~= bytes@);
                assert(render_text(base as nat, bytes@) == render_text((base + i) as nat, tail));
            }
            if remaining > 16 {
                assert(render_text(base as nat, bytes@) =~= out@ + seq!['\n'] + render_text(
                    (base + end) as nat,
                    bytes@.skip(end as int),
                ));
            } else {
                assert(render_text(base as nat, bytes@) =~= out@);
            }
        }
        i = end;
    }
    proof {
        if n == 0 {
            assert(render_text(base as nat, bytes@) =~= out@);
        }
    }
    out
}

} // verus!

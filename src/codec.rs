//! The plain-text save format: a `<width>:<height>` header, then the rows as
//! `0`/`1` characters, each row on a line of its own.
use vstd::prelude::*;

use crate::geometry::Size;

verus! {

/// Why a saved board could not be read back.
#[derive(Debug, Clone, Copy, PartialEq, Eq, Structural)]
pub enum LoadError {
    /// The header is not `<width>:<height>` with numbers that fit in a `u16`,
    /// or the data holds something other than `0`, `1` and newlines.
    Format,
    /// The data does not hold exactly `width * height` cells.
    DataShape,
}

pub open spec fn is_digit(b: u8) -> bool {
    48 <= b <= 57
}

/// The decimal digits of `n`, most significant first, without leading zeros.
pub open spec fn decimal(n: nat) -> Seq<u8>
    decreases n,
{
    if n < 10 {
        seq![(48 + n) as u8]
    } else {
        decimal(n / 10).push((48 + n % 10) as u8)
    }
}

/// The number that a run of decimal digits denotes.
pub open spec fn digits_value(s: Seq<u8>) -> nat
    decreases s.len(),
{
    if s.len() == 0 {
        0
    } else {
        digits_value(s.drop_last()) * 10 + (s.last() - 48) as nat
    }
}

/// Length of the run of decimal digits that starts at `i` in `t`.
pub open spec fn digit_run(t: Seq<u8>, i: int) -> nat
    decreases t.len() - i,
{
    if 0 <= i < t.len() && is_digit(t[i]) {
        1 + digit_run(t, i + 1)
    } else {
        0
    }
}

/// The character that stores one cell.
pub open spec fn bit_char(b: bool) -> u8 {
    if b { 49u8 } else { 48u8 }
}

/// The data part for the first `n` cells: each row starts on a new line.
pub open spec fn encode_cells(cells: Seq<bool>, w: int, n: int) -> Seq<u8>
    decreases n,
{
    if n <= 0 {
        Seq::empty()
    } else if (n - 1) % w == 0 {
        encode_cells(cells, w, n - 1) + seq![10u8, bit_char(cells[n - 1])]
    } else {
        encode_cells(cells, w, n - 1) + seq![bit_char(cells[n - 1])]
    }
}

/// The saved text of a board.
pub open spec fn encoded(size: Size, cells: Seq<bool>) -> Seq<u8> {
    decimal(size.width as nat) + seq![58u8] + decimal(size.height as nat) + encode_cells(
        cells,
        size.width as int,
        cells.len() as int,
    )
}

/// Whether every byte of `s` is `0`, `1` or a newline.
pub open spec fn data_ok(s: Seq<u8>) -> bool {
    forall|i: int| 0 <= i < s.len() ==> (#[trigger] s[i] == 48 || s[i] == 49 || s[i] == 10)
}

/// The cells that a data part holds: newlines are skipped.
pub open spec fn decoded_bits(s: Seq<u8>) -> Seq<bool>
    decreases s.len(),
{
    if s.len() == 0 {
        Seq::empty()
    } else if s.last() == 10 {
        decoded_bits(s.drop_last())
    } else {
        decoded_bits(s.drop_last()).push(s.last() == 49)
    }
}

/// What reading the text `t` gives: the header is a digit run, a colon and a
/// digit run, followed by the end of the text or a newline that opens the data.
pub open spec fn decode_spec(t: Seq<u8>) -> Result<(Size, Seq<bool>), LoadError> {
    let a = digit_run(t, 0) as int;
    let b = digit_run(t, a + 1) as int;
    let e = a + 1 + b;
    if a == 0 || a >= t.len() || t[a] != 58 || b == 0 || (e < t.len() && t[e] != 10) {
        Err(LoadError::Format)
    } else {
        let w = digits_value(t.subrange(0, a));
        let h = digits_value(t.subrange(a + 1, e));
        let data = t.subrange(e, t.len() as int);
        if w > 65535 || h > 65535 || !data_ok(data) {
            Err(LoadError::Format)
        } else if decoded_bits(data).len() != w * h {
            Err(LoadError::DataShape)
        } else {
            Ok((Size { width: w as u16, height: h as u16 }, decoded_bits(data)))
        }
    }
}

proof fn lemma_decimal(n: nat)
    ensures
        decimal(n).len() >= 1,
        forall|i: int| 0 <= i < decimal(n).len() ==> is_digit(#[trigger] decimal(n)[i]),
        digits_value(decimal(n)) == n,
    decreases n,
{
    if n >= 10 {
        lemma_decimal(n / 10);
        let d = decimal(n / 10);
        assert(decimal(n).drop_last() =~= d);
        assert(decimal(n).last() == (48 + n % 10) as u8);
        assert(digits_value(decimal(n)) == digits_value(d) * 10 + n % 10);
    } else {
        assert(decimal(n).drop_last() =~= Seq::<u8>::empty());
        assert(digits_value(decimal(n)) == digits_value(Seq::<u8>::empty()) * 10 + n);
    }
}

proof fn lemma_digit_run(t: Seq<u8>, i: int, k: int)
    requires
        0 <= i,
        0 <= k,
        i + k <= t.len(),
        forall|j: int| i <= j < i + k ==> is_digit(#[trigger] t[j]),
        i + k == t.len() || !is_digit(t[i + k]),
    ensures
        digit_run(t, i) == k,
    decreases k,
{
    if k > 0 {
        lemma_digit_run(t, i + 1, k - 1);
    }
}

proof fn lemma_decoded_bits_append(a: Seq<u8>, b: Seq<u8>)
    ensures
        decoded_bits(a + b) == decoded_bits(a) + decoded_bits(b),
    decreases b.len(),
{
    if b.len() == 0 {
        assert(a + b =~= a);
        assert(decoded_bits(a) + decoded_bits(b) =~= decoded_bits(a));
    } else {
        assert((a + b).drop_last() =~= a + b.drop_last());
        lemma_decoded_bits_append(a, b.drop_last());
        if b.last() != 10 {
            assert(decoded_bits(a) + decoded_bits(b) =~= (decoded_bits(a) + decoded_bits(
                b.drop_last(),
            )).push(b.last() == 49));
        }
    }
}

proof fn lemma_encode_cells(cells: Seq<bool>, w: int, n: int)
    requires
        0 <= n <= cells.len(),
        w > 0 || n == 0,
    ensures
        data_ok(encode_cells(cells, w, n)),
        decoded_bits(encode_cells(cells, w, n)) == cells.subrange(0, n),
        n > 0 ==> encode_cells(cells, w, n).len() > 0 && encode_cells(cells, w, n)[0] == 10,
    decreases n,
{
    if n == 0 {
        assert(cells.subrange(0, 0) =~= Seq::<bool>::empty());
    } else {
        lemma_encode_cells(cells, w, n - 1);
        let prev = encode_cells(cells, w, n - 1);
        let piece = if (n - 1) % w == 0 {
            seq![10u8, bit_char(cells[n - 1])]
        } else {
            seq![bit_char(cells[n - 1])]
        };
        assert(encode_cells(cells, w, n) == prev + piece);
        lemma_decoded_bits_append(prev, piece);
        let b = bit_char(cells[n - 1]);
        assert(decoded_bits(Seq::<u8>::empty()) == Seq::<bool>::empty());
        if (n - 1) % w == 0 {
            assert(piece.drop_last() =~= seq![10u8]);
            assert(seq![10u8].drop_last() =~= Seq::<u8>::empty());
            assert(decoded_bits(seq![10u8]) == decoded_bits(Seq::<u8>::empty()));
            assert(decoded_bits(piece) == decoded_bits(seq![10u8]).push(b == 49));
        } else {
            assert(piece.drop_last() =~= Seq::<u8>::empty());
            assert(decoded_bits(piece) == decoded_bits(Seq::<u8>::empty()).push(b == 49));
        }
        assert(decoded_bits(piece) =~= seq![cells[n - 1]]);
        assert(cells.subrange(0, n) =~= cells.subrange(0, n - 1).push(cells[n - 1]));
        assert(decoded_bits(prev + piece) =~= cells.subrange(0, n));
        assert forall|i: int| 0 <= i < (prev + piece).len() implies (#[trigger] (prev + piece)[i] == 48
            || (prev + piece)[i] == 49 || (prev + piece)[i] == 10) by {
            if i < prev.len() {
                assert(prev[i] == 48 || prev[i] == 49 || prev[i] == 10);
            }
        }
        if n == 1 {
            vstd::arithmetic::div_mod::lemma_fundamental_div_mod_converse(0, w, 0, 0);
        }
    }
}

/// Reading back the saved text of any board gives that board: the same size
/// and the same cells.
pub proof fn lemma_load_save_round_trip(size: Size, cells: Seq<bool>)
    requires
        cells.len() == size.area(),
    ensures
        decode_spec(encoded(size, cells)) == Ok::<(Size, Seq<bool>), LoadError>((size, cells)),
{
    let w = size.width as int;
    let h = size.height as int;
    let d1 = decimal(w as nat);
    let d2 = decimal(h as nat);
    let body = encode_cells(cells, w, cells.len() as int);
    let t = encoded(size, cells);
    lemma_decimal(w as nat);
    lemma_decimal(h as nat);
    if cells.len() > 0 {
        assert(w > 0) by (nonlinear_arith)
            requires
                cells.len() == w * h,
                cells.len() > 0,
                w >= 0,
                h >= 0,
        ;
    }
    lemma_encode_cells(cells, w, cells.len() as int);
    let a = d1.len() as int;
    let e = a + 1 + d2.len();
    assert(t == d1 + seq![58u8] + d2 + body);
    assert(t.len() == e + body.len());
    assert forall|j: int| 0 <= j < a implies is_digit(#[trigger] t[j]) by {
        assert(t[j] == d1[j]);
    }
    assert(t[a] == 58);
    lemma_digit_run(t, 0, a);
    assert forall|j: int| a + 1 <= j < e implies is_digit(#[trigger] t[j]) by {
        assert(t[j] == d2[j - a - 1]);
    }
    if e < t.len() {
        assert(t[e] == body[0]);
    }
    lemma_digit_run(t, a + 1, d2.len() as int);
    assert(t.subrange(0, a) =~= d1);
    assert(t.subrange(a + 1, e) =~= d2);
    assert(t.subrange(e, t.len() as int) =~= body);
    assert(cells.subrange(0, cells.len() as int) =~= cells);
}

/// Reads the digit run of `t` that starts at `start`; returns where it ends
/// and its value, capped at `cap`.
pub(crate) fn scan_digits(t: &[u8], start: usize, cap: u128) -> (r: (usize, u128))
    requires
        start <= t@.len(),
        cap <= 0x1_0000_0000_0000_0000,
    ensures
        r.0 == start + digit_run(t@, start as int),
        r.0 <= t@.len(),
        r.1 as int == if digits_value(t@.subrange(start as int, r.0 as int)) < cap {
            digits_value(t@.subrange(start as int, r.0 as int)) as int
        } else {
            cap as int
        },
{
    let mut i: usize = start;
    let mut v: u128 = 0;
    assert(t@.subrange(start as int, start as int) =~= Seq::<u8>::empty());
    while i < t.len() && 48 <= t[i] && t[i] <= 57
        invariant
            start <= i <= t@.len(),
            cap <= 0x1_0000_0000_0000_0000,
            digit_run(t@, start as int) == (i - start) + digit_run(t@, i as int),
            v as int == if digits_value(t@.subrange(start as int, i as int)) < cap {
                digits_value(t@.subrange(start as int, i as int)) as int
            } else {
                cap as int
            },
        decreases t@.len() - i,
    {
        let d = (t[i] - 48) as u128;
        assert(t@.subrange(start as int, i + 1).drop_last() =~= t@.subrange(start as int, i as int));
        let n = v * 10 + d;
        v = if n < cap { n } else { cap };
        i = i + 1;
    }
    (i, v)
}

/// Appends the decimal digits of `n`.
fn push_decimal(out: &mut Vec<u8>, n: u16)
    ensures
        final(out)@ == old(out)@ + decimal(n as nat),
    decreases n,
{
    if n >= 10 {
        push_decimal(out, n / 10);
    }
    out.push(48 + (n % 10) as u8);
}

/// The saved text of a board of `size` holding `cells`.
pub fn encode(size: Size, cells: &Vec<bool>) -> (r: Vec<u8>)
    requires
        cells@.len() == size.area(),
    ensures
        r@ == encoded(size, cells@),
{
    let mut out: Vec<u8> = Vec::new();
    push_decimal(&mut out, size.width);
    out.push(58);
    push_decimal(&mut out, size.height);
    let ghost header = out@;
    assert(header == decimal(size.width as nat) + seq![58u8] + decimal(size.height as nat));
    let w = size.width as usize;
    let mut i: usize = 0;
    assert(out@ =~= header + encode_cells(cells@, w as int, 0));
    while i < cells.len()
        invariant
            i <= cells@.len(),
            cells@.len() == size.area(),
            w == size.width,
            out@ == header + encode_cells(cells@, w as int, i as int),
        decreases cells@.len() - i,
    {
        proof {
            assert(w > 0) by (nonlinear_arith)
                requires
                    i < size.width * size.height,
                    w == size.width,
            ;
        }
        if i % w == 0 {
            out.push(10);
        }
        out.push(if cells[i] { 49 } else { 48 });
        assert(out@ =~= header + encode_cells(cells@, w as int, i + 1));
        i = i + 1;
    }
    out
}

/// Reads a board back from its saved text.
#[verifier::loop_isolation(false)]
pub fn decode(text: &[u8]) -> (r: Result<(Size, Vec<bool>), LoadError>)
    ensures
        r is Ok <==> decode_spec(text@) is Ok,
        r matches Ok(p) ==> decode_spec(text@) == Ok::<(Size, Seq<bool>), LoadError>((p.0, p.1@)),
        r matches Err(e) ==> decode_spec(text@) == Err::<(Size, Seq<bool>), LoadError>(e),
{
    let ghost t = text@;
    let (a, w) = scan_digits(text, 0, 65536);
    if a == 0 || a >= text.len() || text[a] != 58 {
        return Err(LoadError::Format);
    }
    let (e, h) = scan_digits(text, a + 1, 65536);
    if e == a + 1 || (e < text.len() && text[e] != 10) {
        return Err(LoadError::Format);
    }
    let mut cells: Vec<bool> = Vec::new();
    let mut i: usize = e;
    assert(t.subrange(e as int, e as int) =~= Seq::<u8>::empty());
    while i < text.len()
        invariant
            e <= i <= t.len(),
            t == text@,
            cells@ == decoded_bits(t.subrange(e as int, i as int)),
            data_ok(t.subrange(e as int, i as int)),
        decreases t.len() - i,
    {
        let c = text[i];
        assert(t.subrange(e as int, i + 1).drop_last() =~= t.subrange(e as int, i as int));
        if c == 48 {
            cells.push(false);
        } else if c == 49 {
            cells.push(true);
        } else if c != 10 {
            assert(!data_ok(t.subrange(e as int, t.len() as int))) by {
                assert(t.subrange(e as int, t.len() as int)[i - e] == c);
            }
            return Err(LoadError::Format);
        }
        assert(data_ok(t.subrange(e as int, i + 1))) by {
            assert forall|j: int| 0 <= j < i + 1 - e implies (#[trigger] t.subrange(e as int, i + 1)[j] == 48
                || t.subrange(e as int, i + 1)[j] == 49 || t.subrange(e as int, i + 1)[j] == 10) by {
                if j < i - e {
                    assert(t.subrange(e as int, i + 1)[j] == t.subrange(e as int, i as int)[j]);
                }
            }
        }
        i = i + 1;
    }
    assert(t.subrange(e as int, i as int) =~= t.subrange(e as int, t.len() as int));
    if w > 65535 || h > 65535 {
        return Err(LoadError::Format);
    }
    let size = Size { width: w as u16, height: h as u16 };
    proof {
        assert(w * h <= 65535 * 65535) by (nonlinear_arith)
            requires
                w <= 65535,
                h <= 65535,
        ;
    }
    let area: u64 = w as u64 * h as u64;
    if cells.len() as u64 != area {
        return Err(LoadError::DataShape);
    }
    Ok((size, cells))
}

} // verus!

use vstd::prelude::*;

use crate::cursor::Cursor;
use crate::err::EofField;
use crate::err::PpmError;
use crate::image::Color;
use crate::image::Pimage;
use crate::image::lemma_row_major_in_bounds;

verus! {

// The ASCII bytes the header grammar is made of.
pub const MAGIC_P: u8 = 0x50;

pub const MAGIC_SIX: u8 = 0x36;

pub const NEWLINE: u8 = 0x0a;

pub const SPACE: u8 = 0x20;

pub const TAB: u8 = 0x09;

pub const FORM_FEED: u8 = 0x0c;

pub const CARRIAGE_RETURN: u8 = 0x0d;

pub const DIGIT_ZERO: u8 = 0x30;

pub const DIGIT_NINE: u8 = 0x39;

// ---------------------------------------------------------------------------
// The mathematical model of the wire format.
//
// `spec_read_header`, `spec_read_number` and `spec_read_pixels` say what a
// decode returns for every input; `header_bytes`, `dec_bytes` and `flat` say
// which bytes an encode produces. The executable functions below are proved
// against these, and the round-trip law ties the two together.
// ---------------------------------------------------------------------------

/// An ASCII decimal digit, `'0'` through `'9'`.
pub open spec fn is_ascii_digit(c: u8) -> bool {
    DIGIT_ZERO <= c <= DIGIT_NINE
}

/// The numeric value of an ASCII digit.
pub open spec fn digit_val(c: u8) -> nat {
    (c - DIGIT_ZERO) as nat
}

/// ASCII whitespace: space, tab, line feed, form feed, carriage return.
/// These are the bytes that terminate a header number token.
pub open spec fn is_ascii_space(c: u8) -> bool {
    c == SPACE || c == TAB || c == NEWLINE || c == FORM_FEED || c == CARRIAGE_RETURN
}

/// Reading a decimal token from position `pos` with the digits seen so far
/// worth `acc`: digits accumulate as `acc * 10 + digit`, the first whitespace
/// byte ends the token, any other byte is fatal, and so is running out of
/// input or outgrowing the machine word.
pub open spec fn spec_read_number(s: Seq<u8>, pos: int, acc: nat) -> Result<(nat, int), PpmError>
    decreases s.len() - pos,
{
    if pos < 0 || pos >= s.len() {
        Err(PpmError::UnexpectedEof(EofField::HeaderNumber))
    } else if is_ascii_digit(s[pos]) {
        if acc * 10 + digit_val(s[pos]) > usize::MAX {
            Err(PpmError::MalformedHeader)
        } else {
            spec_read_number(s, pos + 1, acc * 10 + digit_val(s[pos]))
        }
    } else if is_ascii_space(s[pos]) {
        Ok((acc, pos + 1))
    } else {
        Err(PpmError::MalformedHeader)
    }
}

/// Reading a whole header from position `pos`: the magic bytes `"P6"`, a
/// newline, then width, height and max-value tokens, where the max-value
/// must be exactly 255. On success the width, the height and the position
/// of the first pixel byte.
pub open spec fn spec_read_header(s: Seq<u8>, pos: int) -> Result<(nat, nat, int), PpmError> {
    if s.len() - pos <= 0 {
        Err(PpmError::EmptyInput)
    } else if s[pos] != MAGIC_P {
        Err(PpmError::MagicMismatch)
    } else if s.len() - pos <= 1 {
        Err(PpmError::UnexpectedEof(EofField::FormatMarker))
    } else if s[pos + 1] != MAGIC_SIX {
        Err(PpmError::UnsupportedFormat)
    } else if s.len() - pos <= 2 {
        Err(PpmError::UnexpectedEof(EofField::MagicNewline))
    } else if s[pos + 2] != NEWLINE {
        Err(PpmError::MalformedHeader)
    } else {
        match spec_read_number(s, pos + 3, 0) {
            Err(e) => Err(e),
            Ok((w, p1)) => match spec_read_number(s, p1, 0) {
                Err(e) => Err(e),
                Ok((h, p2)) => match spec_read_number(s, p2, 0) {
                    Err(e) => Err(e),
                    Ok((m, p3)) => if m != 255 {
                        Err(PpmError::UnsupportedMaxValue)
                    } else {
                        Ok((w, h, p3))
                    },
                },
            },
        }
    }
}

/// The channel a pixel scan runs out on when `avail` bytes (fewer than
/// three) are left: the scanner reads red, then green, then blue.
pub open spec fn eof_channel(avail: int) -> EofField {
    if avail == 0 {
        EofField::Red
    } else if avail == 1 {
        EofField::Green
    } else {
        EofField::Blue
    }
}

/// The `i`-th pixel of the payload that starts at `pos`: three consecutive
/// bytes, red, green, blue.
pub open spec fn pixel_at(s: Seq<u8>, pos: int, i: int) -> Color {
    Color { r: s[pos + 3 * i], g: s[pos + 3 * i + 1], b: s[pos + 3 * i + 2] }
}

/// Reading exactly `n` pixels from position `pos`: succeeds whenever at
/// least `3 * n` bytes remain (anything further is ignored), and otherwise
/// fails on the first missing channel byte.
pub open spec fn spec_read_pixels(s: Seq<u8>, pos: int, n: nat) -> Result<Seq<Color>, PpmError> {
    if s.len() - pos >= 3 * n {
        Ok(Seq::new(n, |i: int| pixel_at(s, pos, i)))
    } else {
        Err(PpmError::UnexpectedEof(eof_channel((s.len() - pos) % 3)))
    }
}

/// A whole decode: the header, then `width * height` pixels in row-major
/// order.
pub open spec fn spec_decode(s: Seq<u8>) -> Result<(nat, nat, Seq<Color>), PpmError> {
    match spec_read_header(s, 0) {
        Err(e) => Err(e),
        Ok((w, h, p)) => match spec_read_pixels(s, p, w * h) {
            Err(e) => Err(e),
            Ok(pix) => Ok((w, h, pix)),
        },
    }
}

/// The ASCII decimal digits of `n`, most significant first, no sign and no
/// leading zeros.
pub open spec fn dec_bytes(n: nat) -> Seq<u8>
    decreases n,
{
    if n < 10 {
        seq![(DIGIT_ZERO + n) as u8]
    } else {
        dec_bytes(n / 10) + seq![(DIGIT_ZERO + n % 10) as u8]
    }
}

/// The canonical header: `"P6\n{w} {h}\n255\n"`.
pub open spec fn header_bytes(w: nat, h: nat) -> Seq<u8> {
    seq![MAGIC_P, MAGIC_SIX, NEWLINE] + dec_bytes(w) + seq![SPACE] + dec_bytes(h) + seq![NEWLINE] + dec_bytes(
        255,
    ) + seq![NEWLINE]
}

/// The row-major flattening of a pixel sequence into channel bytes: red,
/// green, blue for each pixel in turn, with no padding and no trailer.
pub open spec fn flat(pix: Seq<Color>) -> Seq<u8> {
    Seq::new(
        3 * pix.len(),
        |i: int|
            {
                let c = pix[i / 3];
                if i % 3 == 0 {
                    c.r
                } else if i % 3 == 1 {
                    c.g
                } else {
                    c.b
                }
            },
    )
}

/// A whole encode: the canonical header followed by the flattened pixels.
pub open spec fn spec_encode(img: Pimage) -> Seq<u8> {
    header_bytes(img.spec_width() as nat, img.spec_height() as nat) + flat(img@)
}

// ---------------------------------------------------------------------------
// The executable codec.
// ---------------------------------------------------------------------------

/// A shorthand for `Err(kind)`.
pub fn error<T>(kind: PpmError) -> (r: Result<T, PpmError>)
    ensures
        r == Err::<T, PpmError>(kind),
{
    Err(kind)
}

/// Takes a character as a `u8` and tries to return the digit as a number.
pub fn to_digit(c: u8) -> (r: Option<usize>)
    ensures
        is_ascii_digit(c) ==> r == Some(digit_val(c) as usize),
        !is_ascii_digit(c) ==> r is None,
{
    if c >= DIGIT_ZERO && c <= DIGIT_NINE {
        Some((c - DIGIT_ZERO) as usize)
    } else {
        None
    }
}

/// Whether `c` is one of the whitespace bytes that end a header token.
fn is_space_byte(c: u8) -> (r: bool)
    ensures
        r == is_ascii_space(c),
{
    c == SPACE || c == TAB || c == NEWLINE || c == FORM_FEED || c == CARRIAGE_RETURN
}

/// Tries to read a `usize` number from the cursor, as `spec_read_number`
/// says: digits accumulate until the first whitespace byte ends the token.
pub fn read_number(file: &mut Cursor) -> (r: Result<usize, PpmError>)
    requires
        old(file).wf(),
    ensures
        final(file).wf(),
        final(file).input() == old(file).input(),
        match spec_read_number(old(file).input(), old(file).pos(), 0) {
            Ok((n, p)) => r == Ok::<usize, PpmError>(n as usize) && final(file).pos() == p,
            Err(e) => r == Err::<usize, PpmError>(e),
        },
{
    let mut number: usize = 0;
    loop
        invariant
            file.wf(),
            file.input() == old(file).input(),
            spec_read_number(old(file).input(), old(file).pos(), 0) == spec_read_number(
                file.input(),
                file.pos(),
                number as nat,
            ),
        decreases file.input().len() - file.pos(),
    {
        let next_char = if let Some(next) = file.next() {
            next
        } else {
            return error(PpmError::UnexpectedEof(EofField::HeaderNumber));
        };
        let next_digit = if let Some(digit) = to_digit(next_char) {
            digit
        } else if is_space_byte(next_char) {
            return Ok(number);
        } else {
            return error(PpmError::MalformedHeader);
        };
        number = if let Some(scaled) = number.checked_mul(10) {
            if let Some(grown) = scaled.checked_add(next_digit) {
                grown
            } else {
                return error(PpmError::MalformedHeader);
            }
        } else {
            return error(PpmError::MalformedHeader);
        };
    }
}

/// A successfully parsed token never outgrows the machine word, and the
/// cursor ends up strictly further on, still inside the buffer.
pub proof fn lemma_read_number_bound(s: Seq<u8>, pos: int, acc: nat)
    requires
        acc <= usize::MAX,
    ensures
        spec_read_number(s, pos, acc) matches Ok((n, p)) ==> n <= usize::MAX && pos < p <= s.len(),
    decreases s.len() - pos,
{
    if pos < 0 || pos >= s.len() {
    } else if is_ascii_digit(s[pos]) {
        if acc * 10 + digit_val(s[pos]) <= usize::MAX {
            lemma_read_number_bound(s, pos + 1, acc * 10 + digit_val(s[pos]));
        }
    }
}

/// A successfully parsed header has width and height that fit the machine
/// word, and leaves the position inside the buffer.
pub proof fn lemma_read_header_bound(s: Seq<u8>, pos: int)
    ensures
        spec_read_header(s, pos) matches Ok((w, h, p)) ==> w <= usize::MAX && h <= usize::MAX && pos
            < p <= s.len(),
{
    if s.len() - pos > 2 && s[pos] == MAGIC_P && s[pos + 1] == MAGIC_SIX && s[pos + 2] == NEWLINE {
        lemma_read_number_bound(s, pos + 3, 0);
        match spec_read_number(s, pos + 3, 0) {
            Ok((w, p1)) => {
                lemma_read_number_bound(s, p1, 0);
                match spec_read_number(s, p1, 0) {
                    Ok((h, p2)) => {
                        lemma_read_number_bound(s, p2, 0);
                    },
                    Err(_) => {},
                }
            },
            Err(_) => {},
        }
    }
}

/// Tries to read the header of a PNM P6 buffer, as `spec_read_header` says,
/// and returns the resolution of the image.
pub fn read_header(file: &mut Cursor) -> (r: Result<(usize, usize), PpmError>)
    requires
        old(file).wf(),
    ensures
        final(file).wf(),
        final(file).input() == old(file).input(),
        match spec_read_header(old(file).input(), old(file).pos()) {
            Ok((w, h, p)) => r == Ok::<(usize, usize), PpmError>(((w as usize), (h as usize)))
                && final(file).pos() == p,
            Err(e) => r == Err::<(usize, usize), PpmError>(e),
        },
{
    if let Some(p) = file.next() {
        if p != MAGIC_P {
            return error(PpmError::MagicMismatch);
        }
    } else {
        return error(PpmError::EmptyInput);
    }
    if let Some(six) = file.next() {
        if six != MAGIC_SIX {
            return error(PpmError::UnsupportedFormat);
        }
    } else {
        return error(PpmError::UnexpectedEof(EofField::FormatMarker));
    }
    if let Some(newline) = file.next() {
        if newline != NEWLINE {
            return error(PpmError::MalformedHeader);
        }
    } else {
        return error(PpmError::UnexpectedEof(EofField::MagicNewline));
    }
    proof {
        lemma_read_number_bound(file.input(), file.pos(), 0);
    }
    let width = match read_number(file) {
        Ok(w) => w,
        Err(e) => return Err(e),
    };
    proof {
        lemma_read_number_bound(file.input(), file.pos(), 0);
    }
    let height = match read_number(file) {
        Ok(h) => h,
        Err(e) => return Err(e),
    };
    proof {
        lemma_read_number_bound(file.input(), file.pos(), 0);
    }
    let max_value = match read_number(file) {
        Ok(m) => m,
        Err(e) => return Err(e),
    };
    if max_value != 255 {
        return error(PpmError::UnsupportedMaxValue);
    }
    Ok((width, height))
}

/// Returns the next pixel: three consecutive bytes read as red, green,
/// blue, each one failing on its own when the input runs out.
pub fn read_next_color(file: &mut Cursor) -> (r: Result<Color, PpmError>)
    requires
        old(file).wf(),
    ensures
        final(file).wf(),
        final(file).input() == old(file).input(),
        old(file).remaining() >= 3 ==> r == Ok::<Color, PpmError>(
            pixel_at(old(file).input(), old(file).pos(), 0),
        ) && final(file).pos() == old(file).pos() + 3,
        old(file).remaining() < 3 ==> r == Err::<Color, PpmError>(
            PpmError::UnexpectedEof(eof_channel(old(file).remaining())),
        ),
{
    let red = if let Some(v) = file.next() {
        v
    } else {
        return error(PpmError::UnexpectedEof(EofField::Red));
    };
    let green = if let Some(v) = file.next() {
        v
    } else {
        return error(PpmError::UnexpectedEof(EofField::Green));
    };
    let blue = if let Some(v) = file.next() {
        v
    } else {
        return error(PpmError::UnexpectedEof(EofField::Blue));
    };
    Ok(Color { r: red, g: green, b: blue })
}

/// Decodes a whole PNM P6 buffer into a pixel grid, exactly as
/// `spec_decode` says: any failure aborts the decode, and bytes after the
/// last pixel are ignored.
#[verifier::loop_isolation(false)]
pub fn decode(bytes: &[u8]) -> (r: Result<Pimage, PpmError>)
    ensures
        match spec_decode(bytes@) {
            Ok((w, h, pix)) => r matches Ok(img) && img.wf() && img.spec_width() as nat == w
                && img.spec_height() as nat == h && img@ == pix,
            Err(e) => r == Err::<Pimage, PpmError>(e),
        },
{
    let ghost s = bytes@;
    let mut file = Cursor::new(bytes);
    proof {
        lemma_read_header_bound(s, 0);
    }
    let size = match read_header(&mut file) {
        Ok(wh) => wh,
        Err(e) => return Err(e),
    };
    let width = size.0;
    let height = size.1;
    let ghost p0 = file.pos();
    let mut pixels: Vec<Color> = Vec::new();
    let mut y: usize = 0;
    while y < height
        invariant
            file.wf(),
            file.input() == s,
            y <= height,
            pixels@.len() == y as int * width as int,
            file.pos() == p0 + 3 * (y as int * width as int),
            forall|i: int| 0 <= i < pixels@.len() ==> pixels@[i] == pixel_at(s, p0, i),
        decreases height - y,
    {
        let mut x: usize = 0;
        while x < width
            invariant
                file.wf(),
                file.input() == s,
                x <= width,
                y < height,
                pixels@.len() == y as int * width as int + x as int,
                file.pos() == p0 + 3 * (y as int * width as int + x as int),
                forall|i: int| 0 <= i < pixels@.len() ==> pixels@[i] == pixel_at(s, p0, i),
            decreases width - x,
        {
            let ghost k = y as int * width as int + x as int;
            let new_color = match read_next_color(&mut file) {
                Ok(c) => c,
                Err(e) => {
                    proof {
                        let rem = s.len() - (p0 + 3 * k);
                        lemma_row_major_in_bounds(
                            x as int,
                            y as int,
                            width as int,
                            height as int,
                        );
                        vstd::arithmetic::div_mod::lemma_mod_multiples_vanish(k, rem, 3);
                        vstd::arithmetic::div_mod::lemma_small_mod(rem as nat, 3);
                    }
                    return Err(e);
                },
            };
            pixels.push(new_color);
            x = x + 1;
        }
        proof {
            assert((y as int + 1) * (width as int) == y as int * width as int + width as int)
                by (nonlinear_arith);
        }
        y = y + 1;
    }
    proof {
        assert(height as int * width as int == width as int * height as int) by (nonlinear_arith);
        assert(pixels@ =~= Seq::new(
            (width as nat) * (height as nat),
            |i: int| pixel_at(s, p0, i),
        ));
    }
    let img = Pimage::from_pixels(width, height, pixels);
    Ok(img)
}

/// Flattening one more pixel appends exactly its three channel bytes.
pub proof fn lemma_flat_snoc(pix: Seq<Color>, j: int)
    requires
        0 <= j < pix.len(),
    ensures
        flat(pix.take(j + 1)) == flat(pix.take(j)) + seq![pix[j].r, pix[j].g, pix[j].b],
{
    let a = flat(pix.take(j + 1));
    let b = flat(pix.take(j)) + seq![pix[j].r, pix[j].g, pix[j].b];
    assert forall|i: int| 0 <= i < 3 * (j + 1) implies a[i] == b[i] by {
        if i < 3 * j {
            assert(0 <= i / 3 < j) by (nonlinear_arith)
                requires
                    0 <= i < 3 * j,
            ;
        } else {
            assert(i / 3 == j && i % 3 == i - 3 * j) by (nonlinear_arith)
                requires
                    3 * j <= i < 3 * (j + 1),
            ;
        }
    }
    assert(a =~= b);
}

/// Appends the ASCII decimal digits of `n`, most significant first.
pub fn push_decimal(out: &mut Vec<u8>, n: usize)
    ensures
        final(out)@ == old(out)@ + dec_bytes(n as nat),
    decreases n,
{
    if n >= 10 {
        proof {
            assert(0 < n / 10 < n) by (nonlinear_arith)
                requires
                    n >= 10,
            ;
        }
        push_decimal(out, n / 10);
    }
    let d = (n % 10) as u8;
    out.push(DIGIT_ZERO + d);
    proof {
        assert(out@ =~= old(out)@ + dec_bytes(n as nat));
    }
}

/// Encodes a pixel grid into the exact canonical byte layout, as
/// `spec_encode` says: the header text, then every pixel's red, green and
/// blue bytes in row-major order, nothing else.
#[verifier::loop_isolation(false)]
pub fn encode(image: &Pimage) -> (out: Vec<u8>)
    requires
        image.wf(),
    ensures
        out@ == spec_encode(*image),
{
    let ghost hb = header_bytes(image.spec_width() as nat, image.spec_height() as nat);
    let mut out: Vec<u8> = Vec::new();
    out.push(MAGIC_P);
    out.push(MAGIC_SIX);
    out.push(NEWLINE);
    push_decimal(&mut out, image.width());
    out.push(SPACE);
    push_decimal(&mut out, image.height());
    out.push(NEWLINE);
    push_decimal(&mut out, 255);
    out.push(NEWLINE);
    proof {
        assert(out@ =~= hb);
        assert(out@ =~= hb + flat(image@.take(0)));
    }
    let pix = image.pixels();
    let n = pix.len();
    let mut j: usize = 0;
    while j < n
        invariant
            j <= n,
            out@ == hb + flat(image@.take(j as int)),
        decreases n - j,
    {
        let c = pix[j];
        out.push(c.r);
        out.push(c.g);
        out.push(c.b);
        proof {
            lemma_flat_snoc(image@, j as int);
            assert(out@ =~= hb + flat(image@.take(j as int + 1)));
        }
        j = j + 1;
    }
    proof {
        assert(image@.take(n as int) =~= image@);
    }
    out
}

// ---------------------------------------------------------------------------
// The round trip: decoding what encode produced gives the original grid back.
// ---------------------------------------------------------------------------

/// Ten to the `k`-th power.
pub open spec fn pow10(k: nat) -> nat
    decreases k,
{
    if k == 0 {
        1
    } else {
        10 * pow10((k - 1) as nat)
    }
}

/// The decimal digits of a number are never empty, and every byte of them
/// is an ASCII digit (so none is whitespace).
pub proof fn lemma_dec_bytes_digits(n: nat)
    ensures
        dec_bytes(n).len() >= 1,
        forall|i: int| 0 <= i < dec_bytes(n).len() ==> is_ascii_digit(#[trigger] dec_bytes(n)[i]),
    decreases n,
{
    if n >= 10 {
        assert(0 <= n / 10 < n) by (nonlinear_arith)
            requires
                n >= 10,
        ;
        lemma_dec_bytes_digits(n / 10);
    }
}

/// Scanning the decimal digits of `n` multiplies the accumulator by ten for
/// each digit and adds `n`: the token parser really reads numbers back.
pub proof fn lemma_parse_digits(s: Seq<u8>, pos: int, acc: nat, n: nat)
    requires
        0 <= pos,
        pos + dec_bytes(n).len() <= s.len(),
        forall|i: int| 0 <= i < dec_bytes(n).len() ==> s[pos + i] == #[trigger] dec_bytes(n)[i],
        acc * pow10(dec_bytes(n).len()) + n <= usize::MAX,
    ensures
        spec_read_number(s, pos, acc) == spec_read_number(
            s,
            pos + dec_bytes(n).len(),
            acc * pow10(dec_bytes(n).len()) + n,
        ),
    decreases n,
{
    let l = dec_bytes(n).len() as int;
    if n < 10 {
        assert(s[pos] == dec_bytes(n)[0]);
        assert(is_ascii_digit(s[pos]) && digit_val(s[pos]) == n);
        assert(pow10(1) == 10 * pow10(0));
        assert(acc * 10 == acc * pow10(1)) by (nonlinear_arith)
            requires
                pow10(1) == 10,
        ;
    } else {
        assert(0 <= n / 10 < n) by (nonlinear_arith)
            requires
                n >= 10,
        ;
        let l1 = dec_bytes(n / 10).len() as int;
        assert(dec_bytes(n) == dec_bytes(n / 10) + seq![(DIGIT_ZERO + n % 10) as u8]);
        assert(l == l1 + 1);
        assert forall|i: int| 0 <= i < l1 implies s[pos + i] == #[trigger] dec_bytes(n / 10)[i] by {
            assert(dec_bytes(n)[i] == dec_bytes(n / 10)[i]);
            assert(s[pos + i] == dec_bytes(n)[i]);
        }
        let a1 = acc * pow10(l1 as nat) + n / 10;
        let t = acc * pow10(l as nat) + n;
        assert(pow10(l as nat) == 10 * pow10(l1 as nat));
        vstd::arithmetic::div_mod::lemma_fundamental_div_mod(n as int, 10);
        assert(a1 * 10 + n % 10 == t) by (nonlinear_arith)
            requires
                a1 == acc * pow10(l1 as nat) + n / 10,
                t == acc * pow10(l as nat) + n,
                pow10(l as nat) == 10 * pow10(l1 as nat),
                n == 10 * (n as int / 10) + n as int % 10,
        ;
        assert(a1 <= t);
        lemma_parse_digits(s, pos, acc, n / 10);
        // One more digit: the last byte of the token.
        assert(s[pos + l1] == dec_bytes(n)[l1]);
        assert(is_ascii_digit(s[pos + l1]) && digit_val(s[pos + l1]) == n % 10);
        assert(spec_read_number(s, pos + l1, a1) == spec_read_number(s, pos + l, a1 * 10 + n % 10));
    }
}

/// A decimal token followed by one whitespace byte parses to exactly that
/// number, leaving the position right after the terminator.
pub proof fn lemma_read_token(s: Seq<u8>, pos: int, n: nat)
    requires
        0 <= pos,
        n <= usize::MAX,
        pos + dec_bytes(n).len() + 1 <= s.len(),
        forall|i: int| 0 <= i < dec_bytes(n).len() ==> s[pos + i] == #[trigger] dec_bytes(n)[i],
        is_ascii_space(s[pos + dec_bytes(n).len()]),
    ensures
        spec_read_number(s, pos, 0) == Ok::<(nat, int), PpmError>(
            (n, pos + dec_bytes(n).len() + 1),
        ),
{
    let l = dec_bytes(n).len() as int;
    assert((0 as nat) * pow10(l as nat) == 0) by (nonlinear_arith);
    lemma_parse_digits(s, pos, 0, n);
    lemma_dec_bytes_digits(n);
    assert(!is_ascii_digit(s[pos + l]));
}

/// The round-trip law: decoding the bytes that `spec_encode` produces for
/// any well-formed grid with positive dimensions succeeds and returns the
/// grid's own width, height and pixels.
pub proof fn lemma_round_trip(img: Pimage)
    requires
        img.wf(),
        img.spec_width() >= 1,
        img.spec_height() >= 1,
    ensures
        spec_decode(spec_encode(img)) == Ok::<(nat, nat, Seq<Color>), PpmError>(
            ((img.spec_width() as nat), (img.spec_height() as nat), img@),
        ),
{
    let w = img.spec_width() as nat;
    let h = img.spec_height() as nat;
    let s = spec_encode(img);
    let hb = header_bytes(w, h);
    let dw = dec_bytes(w);
    let dh = dec_bytes(h);
    let dm = dec_bytes(255);
    let lw = dw.len() as int;
    let lh = dh.len() as int;
    let lm = dm.len() as int;
    let p1 = 4 + lw;  // height token start
    let p2 = p1 + lh + 1;  // max-value token start
    let p3 = p2 + lm + 1;  // first pixel byte
    lemma_dec_bytes_digits(w);
    lemma_dec_bytes_digits(h);
    lemma_dec_bytes_digits(255);
    assert(hb.len() == p3);
    assert(s.len() == p3 + 3 * img@.len());
    // The magic bytes and their newline.
    assert(s[0] == MAGIC_P && s[1] == MAGIC_SIX && s[2] == NEWLINE);
    // The width token and its space terminator.
    assert forall|i: int| 0 <= i < lw implies s[3 + i] == #[trigger] dw[i] by {
        assert(hb[3 + i] == dw[i]);
    }
    assert(s[3 + lw] == SPACE);
    lemma_read_token(s, 3, w);
    // The height token and its newline terminator.
    assert forall|i: int| 0 <= i < lh implies s[p1 + i] == #[trigger] dh[i] by {
        assert(hb[p1 + i] == dh[i]);
    }
    assert(s[p1 + lh] == NEWLINE);
    lemma_read_token(s, p1, h);
    // The max-value token and its newline terminator.
    assert forall|i: int| 0 <= i < lm implies s[p2 + i] == #[trigger] dm[i] by {
        assert(hb[p2 + i] == dm[i]);
    }
    assert(s[p2 + lm] == NEWLINE);
    lemma_read_token(s, p2, 255);
    assert(spec_read_header(s, 0) == Ok::<(nat, nat, int), PpmError>((w, h, p3)));
    // The pixel payload: exactly 3 * w * h bytes, each pixel read back as
    // it was written.
    assert(img@.len() == w * h);
    assert(s.len() - p3 >= 3 * (w * h));
    let pix = Seq::new(w * h, |i: int| pixel_at(s, p3, i));
    assert forall|i: int| 0 <= i < w * h implies pix[i] == img@[i] by {
        assert((3 * i) / 3 == i && (3 * i) % 3 == 0 && (3 * i + 1) / 3 == i && (3 * i + 1) % 3
            == 1 && (3 * i + 2) / 3 == i && (3 * i + 2) % 3 == 2) by (nonlinear_arith)
            requires
                i >= 0,
        ;
        assert(s[p3 + 3 * i] == flat(img@)[3 * i]);
        assert(s[p3 + 3 * i + 1] == flat(img@)[3 * i + 1]);
        assert(s[p3 + 3 * i + 2] == flat(img@)[3 * i + 2]);
    }
    assert(pix =~= img@);
}

/// Header rejection: a buffer whose first bytes are `"Q6\n"` fails with
/// `MagicMismatch`, one starting `"P7\n"` fails with `UnsupportedFormat`,
/// and one starting `"P6 "` (a space instead of the newline) fails with
/// `MalformedHeader`.
pub proof fn lemma_header_rejection(s: Seq<u8>)
    ensures
        s.len() >= 3 && s[0] == 0x51 && s[1] == MAGIC_SIX && s[2] == NEWLINE ==> spec_decode(s)
            == Err::<(nat, nat, Seq<Color>), PpmError>(PpmError::MagicMismatch),
        s.len() >= 3 && s[0] == MAGIC_P && s[1] == 0x37 && s[2] == NEWLINE ==> spec_decode(s)
            == Err::<(nat, nat, Seq<Color>), PpmError>(PpmError::UnsupportedFormat),
        s.len() >= 3 && s[0] == MAGIC_P && s[1] == MAGIC_SIX && s[2] == SPACE ==> spec_decode(s)
            == Err::<(nat, nat, Seq<Color>), PpmError>(PpmError::MalformedHeader),
{
}

/// Max-value rejection: any buffer that starts with the well-formed header
/// `"P6\n2 2\n254\n"` fails with `UnsupportedMaxValue`, whatever follows.
pub proof fn lemma_max_value_rejection(s: Seq<u8>)
    requires
        s.len() >= 11,
        s[0] == MAGIC_P,
        s[1] == MAGIC_SIX,
        s[2] == NEWLINE,
        s[3] == 0x32,
        s[4] == SPACE,
        s[5] == 0x32,
        s[6] == NEWLINE,
        s[7] == 0x32,
        s[8] == 0x35,
        s[9] == 0x34,
        s[10] == NEWLINE,
    ensures
        spec_decode(s) == Err::<(nat, nat, Seq<Color>), PpmError>(PpmError::UnsupportedMaxValue),
{
    reveal_with_fuel(spec_read_number, 6);
    assert(spec_read_number(s, 3, 0) == Ok::<(nat, int), PpmError>((2, 5)));
    assert(spec_read_number(s, 5, 0) == Ok::<(nat, int), PpmError>((2, 7)));
    assert(spec_read_number(s, 7, 0) == Ok::<(nat, int), PpmError>((254, 11)));
}

/// Truncation: a buffer that starts with the well-formed header of a 2 by 2
/// image, `"P6\n2 2\n255\n"`, but holds fewer than the twelve required pixel
/// bytes, fails with `UnexpectedEof` — it never yields a partial grid.
pub proof fn lemma_truncation(s: Seq<u8>)
    requires
        s.len() >= 11,
        s.len() < 23,
        s[0] == MAGIC_P,
        s[1] == MAGIC_SIX,
        s[2] == NEWLINE,
        s[3] == 0x32,
        s[4] == SPACE,
        s[5] == 0x32,
        s[6] == NEWLINE,
        s[7] == 0x32,
        s[8] == 0x35,
        s[9] == 0x35,
        s[10] == NEWLINE,
    ensures
        spec_decode(s) matches Err(e) && e is UnexpectedEof,
{
    reveal_with_fuel(spec_read_number, 6);
    assert(spec_read_number(s, 3, 0) == Ok::<(nat, int), PpmError>((2, 5)));
    assert(spec_read_number(s, 5, 0) == Ok::<(nat, int), PpmError>((2, 7)));
    assert(spec_read_number(s, 7, 0) == Ok::<(nat, int), PpmError>((255, 11)));
    assert(spec_read_header(s, 0) == Ok::<(nat, nat, int), PpmError>((2, 2, 11)));
    assert((2 as nat) * (2 as nat) == 4) by (nonlinear_arith);
    assert(spec_read_pixels(s, 11, 4) matches Err(e) && e is UnexpectedEof);
}

/// Trailing-data tolerance: a well-formed 1 by 1 image — header plus exactly
/// three pixel bytes — decodes successfully whatever bytes follow, and the
/// extra bytes change nothing.
pub proof fn lemma_trailing_data(r: u8, g: u8, b: u8, extra: Seq<u8>)
    ensures
        spec_decode(
            seq![
                MAGIC_P,
                MAGIC_SIX,
                NEWLINE,
                0x31,
                SPACE,
                0x31,
                NEWLINE,
                0x32,
                0x35,
                0x35,
                NEWLINE,
                r,
                g,
                b,
            ] + extra,
        ) == Ok::<(nat, nat, Seq<Color>), PpmError>((1, 1, seq![Color { r, g, b }])),
{
    let s = seq![
        MAGIC_P,
        MAGIC_SIX,
        NEWLINE,
        0x31,
        SPACE,
        0x31,
        NEWLINE,
        0x32,
        0x35,
        0x35,
        NEWLINE,
        r,
        g,
        b,
    ] + extra;
    reveal_with_fuel(spec_read_number, 6);
    assert(spec_read_number(s, 3, 0) == Ok::<(nat, int), PpmError>((1, 5)));
    assert(spec_read_number(s, 5, 0) == Ok::<(nat, int), PpmError>((1, 7)));
    assert(spec_read_number(s, 7, 0) == Ok::<(nat, int), PpmError>((255, 11)));
    assert(spec_read_header(s, 0) == Ok::<(nat, nat, int), PpmError>((1, 1, 11)));
    assert((1 as nat) * (1 as nat) == 1) by (nonlinear_arith);
    assert(s.len() - 11 >= 3);
    let pix = Seq::new(1, |i: int| pixel_at(s, 11, i));
    assert(pix[0] == Color { r, g, b });
    assert(pix =~= seq![Color { r, g, b }]);
}

} // verus!

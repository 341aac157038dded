//! Plain PPM ("P3") text: a header that declares the width, the height and
//! the largest channel value, then one line of three decimal numbers for
//! each pixel, in the order in which the pixels are handed over.
//!
//! [`Writer`] builds that text and keeps count: it takes no more pixels
//! than the header declares, and gives the text up only when it has taken
//! all of them.

use vstd::prelude::*;

verus! {

/// The largest channel value that the header declares.
pub const MAX_CHANNEL: u8 = 255;

/// The ASCII code of the decimal digit `d`, for `d` below ten.
pub open spec fn digit(d: nat) -> u8 {
    (48 + d) as u8
}

/// The decimal numeral of `n`: most significant digit first, no leading
/// zero, and the single digit `0` for zero.
pub open spec fn decimal(n: nat) -> Seq<u8>
    decreases n,
{
    if n < 10 {
        seq![digit(n)]
    } else {
        decimal(n / 10).push(digit(n % 10))
    }
}

/// The number that a string of decimal digits denotes, read from the left.
pub open spec fn decimal_value(s: Seq<u8>) -> nat
    decreases s.len(),
{
    if s.len() == 0 {
        0
    } else {
        (10 * decimal_value(s.drop_last()) + (s.last() - 48)) as nat
    }
}

/// Whether `s` is a numeral as [`decimal`] writes it: one digit or more,
/// every byte a digit, and no zero in front of another digit.
pub open spec fn is_numeral(s: Seq<u8>) -> bool {
    &&& s.len() >= 1
    &&& forall|i: int| 0 <= i < s.len() ==> 48 <= #[trigger] s[i] <= 57
    &&& s.len() > 1 ==> s[0] != 48
}

/// Every numeral that [`decimal`] writes is well formed and denotes the
/// number it was written for.
pub proof fn lemma_decimal_reads_back(n: nat)
    ensures
        is_numeral(decimal(n)),
        decimal_value(decimal(n)) == n,
        n >= 10 ==> decimal(n).len() > 1,
    decreases n,
{
    if n < 10 {
        let s = decimal(n);
        assert(s.drop_last().len() == 0);
        assert(decimal_value(s.drop_last()) == 0);
    } else {
        lemma_decimal_reads_back(n / 10);
        let head = decimal(n / 10);
        let s = decimal(n);
        assert(s.drop_last() =~= head);
        assert(s.last() == digit(n % 10));
        assert(s[0] == head[0]);
        assert(n / 10 >= 1);
        if head.len() == 1 {
            assert(decimal_value(head) == head[0] - 48) by {
                assert(head.drop_last().len() == 0);
                assert(decimal_value(head.drop_last()) == 0);
            }
        }
    }
}

/// Two numbers with the same numeral are the same number.
pub proof fn lemma_decimal_injective(a: nat, b: nat)
    requires
        decimal(a) == decimal(b),
    ensures
        a == b,
{
    lemma_decimal_reads_back(a);
    lemma_decimal_reads_back(b);
}

/// Appends the decimal numeral of `n` to `out`.
pub fn push_decimal(out: &mut Vec<u8>, n: u64)
    ensures
        final(out)@ == old(out)@ + decimal(n as nat),
{
    // The digits of `n`, least significant first.
    let mut digits: Vec<u8> = Vec::new();
    let mut rest: u64 = n;
    loop
        invariant_except_break
            decimal(n as nat) =~= decimal(rest as nat) + Seq::new(
                digits@.len(),
                |i: int| digits@[digits@.len() - 1 - i],
            ),
        ensures
            1 <= digits@.len(),
            decimal(n as nat) =~= Seq::new(digits@.len(), |i: int| digits@[digits@.len() - 1 - i]),
        decreases rest,
    {
        let d: u8 = (rest % 10) as u8;
        let ghost before = digits@;
        digits.push(48 + d);
        let ghost older = Seq::new(before.len(), |i: int| before[before.len() - 1 - i]);
        let ghost newer = Seq::new(digits@.len(), |i: int| digits@[digits@.len() - 1 - i]);
        assert(newer =~= seq![digit(d as nat)] + older);
        if rest < 10 {
            assert(decimal(n as nat) =~= newer);
            break ;
        }
        assert(decimal(rest as nat) == decimal((rest / 10) as nat).push(digit((rest % 10) as nat)));
        rest = rest / 10;
        assert(decimal(n as nat) =~= decimal(rest as nat) + newer);
    }
    let ghost start = out@;
    let mut k: usize = digits.len();
    while k > 0
        invariant
            k <= digits@.len(),
            out@ =~= start + Seq::new(
                (digits@.len() - k) as nat,
                |i: int| digits@[digits@.len() - 1 - i],
            ),
        decreases k,
    {
        k = k - 1;
        out.push(digits[k]);
    }
}


/// An image as the sink sees it: the declared size, and the pixels
/// received so far, first received first.
pub ghost struct Image {
    pub width: nat,
    pub height: nat,
    pub pixels: Seq<(u8, u8, u8)>,
}

impl Image {
    /// The number of pixels that the header declares.
    pub open spec fn expected(self) -> nat {
        self.width * self.height
    }

    /// Whether every declared pixel has been received.
    pub open spec fn complete(self) -> bool {
        self.pixels.len() == self.expected()
    }

    /// The image with one more pixel received.
    pub open spec fn with_pixel(self, pixel: (u8, u8, u8)) -> Image {
        Image { pixels: self.pixels.push(pixel), ..self }
    }
}

/// The header: the magic number `P3`, then the width and the height
/// (columns first), then the largest channel value, each on a line of its own.
pub open spec fn header(width: nat, height: nat) -> Seq<u8> {
    seq![0x50u8, 0x33u8, 0x0au8] + decimal(width) + seq![0x20u8] + decimal(height) + seq![0x0au8]
        + decimal(MAX_CHANNEL as nat) + seq![0x0au8]
}

/// The line of one pixel: red, green and blue, separated by single spaces.
pub open spec fn pixel_line(pixel: (u8, u8, u8)) -> Seq<u8> {
    decimal(pixel.0 as nat) + seq![0x20u8] + decimal(pixel.1 as nat) + seq![0x20u8] + decimal(
        pixel.2 as nat,
    ) + seq![0x0au8]
}

/// The lines of `pixels`, one after the other.
pub open spec fn pixel_lines(pixels: Seq<(u8, u8, u8)>) -> Seq<u8>
    decreases pixels.len(),
{
    if pixels.len() == 0 {
        Seq::empty()
    } else {
        pixel_lines(pixels.drop_last()) + pixel_line(pixels.last())
    }
}

/// The text of an image: its header, then the lines of its pixels.
pub open spec fn encode(image: Image) -> Seq<u8> {
    header(image.width, image.height) + pixel_lines(image.pixels)
}

/// One more pixel adds its line at the end of the text, and changes
/// nothing before it.
pub proof fn lemma_encode_with_pixel(image: Image, pixel: (u8, u8, u8))
    ensures
        encode(image.with_pixel(pixel)) == encode(image) + pixel_line(pixel),
{
    let more = image.pixels.push(pixel);
    assert(more.drop_last() =~= image.pixels);
    assert(more.last() == pixel);
    assert(encode(image.with_pixel(pixel)) =~= encode(image) + pixel_line(pixel));
}

/// A sink for the pixels of one image, which keeps the text written so far.
pub struct Writer {
    text: Vec<u8>,
    width: u64,
    height: u64,
    written: u64,
    pixels: Ghost<Seq<(u8, u8, u8)>>,
}

impl View for Writer {
    type V = Image;

    closed spec fn view(&self) -> Image {
        Image { width: self.width as nat, height: self.height as nat, pixels: self.pixels@ }
    }
}

impl Writer {
    /// What holds of every writer: the pixel count fits the machine, no
    /// more pixels were taken than declared, and the text is that of the
    /// image so far.
    pub closed spec fn wf(&self) -> bool {
        &&& self.width * self.height <= u64::MAX
        &&& self.written <= self.width * self.height
        &&& self.pixels@.len() == self.written
        &&& self.text@ == encode(self@)
    }

    /// Starts an image of `x` columns and `y` rows: writes the header and
    /// expects `x * y` pixels.
    pub fn new(x: u64, y: u64) -> (writer: Writer)
        requires
            x * y <= u64::MAX,
        ensures
            writer.wf(),
            writer@.width == x,
            writer@.height == y,
            writer@.pixels == Seq::<(u8, u8, u8)>::empty(),
    {
        let mut text: Vec<u8> = Vec::new();
        text.push(0x50);
        text.push(0x33);
        text.push(0x0a);
        push_decimal(&mut text, x);
        text.push(0x20);
        push_decimal(&mut text, y);
        text.push(0x0a);
        push_decimal(&mut text, MAX_CHANNEL as u64);
        text.push(0x0a);
        let writer = Writer { text, width: x, height: y, written: 0, pixels: Ghost(Seq::empty()) };
        assert(writer.text@ =~= encode(writer@));
        writer
    }

    /// Takes the next pixel and writes its line.
    pub fn write_pixel(&mut self, r: u8, g: u8, b: u8)
        requires
            old(self).wf(),
            !old(self)@.complete(),
        ensures
            final(self).wf(),
            final(self)@.width == old(self)@.width,
            final(self)@.height == old(self)@.height,
            final(self)@.pixels == old(self)@.pixels.push((r, g, b)),
    {
        proof {
            lemma_encode_with_pixel(self@, (r, g, b));
        }
        let ghost before = self.text@;
        push_decimal(&mut self.text, r as u64);
        self.text.push(0x20);
        push_decimal(&mut self.text, g as u64);
        self.text.push(0x20);
        push_decimal(&mut self.text, b as u64);
        self.text.push(0x0a);
        assert(self.text@ =~= before + pixel_line((r, g, b)));
        self.written = self.written + 1;
        self.pixels = Ghost(self.pixels@.push((r, g, b)));
    }

    /// The number of pixels taken so far.
    pub fn written(&self) -> (n: u64)
        requires
            self.wf(),
        ensures
            n == self@.pixels.len(),
    {
        self.written
    }

    /// The number of pixels that the header declares.
    pub fn expected(&self) -> (n: u64)
        requires
            self.wf(),
        ensures
            n == self@.expected(),
    {
        self.width * self.height
    }

    /// Whether every declared pixel has been taken.
    pub fn is_complete(&self) -> (done: bool)
        requires
            self.wf(),
        ensures
            done == self@.complete(),
    {
        self.written == self.width * self.height
    }

    /// The text written so far.
    pub fn text(&self) -> (text: &Vec<u8>)
        requires
            self.wf(),
        ensures
            text@ == encode(self@),
    {
        &self.text
    }

    /// Ends the image and hands over its text.
    pub fn finish(self) -> (text: Vec<u8>)
        requires
            self.wf(),
            self@.complete(),
        ensures
            text@ == encode(self@),
    {
        self.text
    }
}

} // verus!

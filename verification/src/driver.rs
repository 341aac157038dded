//! The order of the work on one image: which pixel is sampled or emitted
//! at each step.
//!
//! Pixels are emitted row by row from the top of the image to its bottom,
//! and from left to right within a row. Rows are numbered upwards, so the
//! first pixel emitted is in row `height - 1`. Each pixel is sampled
//! `samples` times and then emitted, before the next pixel is begun.

use crate::ppm::Image;
use vstd::arithmetic::div_mod::lemma_fundamental_div_mod_converse;
use vstd::prelude::*;

verus! {

/// The place of a pixel: its column, counted from the left, and its row,
/// counted from the bottom.
#[derive(Clone, Copy, Debug, PartialEq, Eq, Structural)]
pub struct Pixel {
    pub column: u64,
    pub row: u64,
}

/// One step of the work on an image.
#[derive(Clone, Copy, Debug, PartialEq, Eq, Structural)]
pub enum Action {
    /// Take one more sample of this pixel.
    Sample(Pixel),
    /// Average the samples of this pixel and hand the pixel to the sink.
    Emit(Pixel),
    /// Every pixel has been emitted.
    Finish,
}

/// The pixel that is emitted after `k` others, in an image of `width`
/// columns and `height` rows.
pub open spec fn pixel_at(width: nat, height: nat, k: nat) -> Pixel
    recommends
        k < width * height,
{
    Pixel { column: (k % width) as u64, row: (height - 1 - k / width) as u64 }
}

/// The number of pixels that are emitted before `pixel`.
pub open spec fn index_of(width: nat, height: nat, pixel: Pixel) -> nat
    recommends
        pixel.column < width,
        pixel.row < height,
{
    ((height - 1 - pixel.row) * width + pixel.column) as nat
}

/// Of `k = q * width + column` with `column < width`, the quotient by
/// `width` is `q`, and `k` is below `width * height` exactly if `q` is
/// below `height`.
proof fn lemma_split(width: nat, height: nat, q: nat, column: nat)
    requires
        column < width,
    ensures
        (q * width + column) / width == q,
        (q * width + column) % width == column,
        q < height <==> q * width + column < width * height,
{
    lemma_fundamental_div_mod_converse(
        (q * width + column) as int,
        width as int,
        q as int,
        column as int,
    );
    if q < height {
        assert(q * width + column < width * height) by (nonlinear_arith)
            requires
                q + 1 <= height,
                column < width,
        ;
    } else {
        assert(q * width + column >= width * height) by (nonlinear_arith)
            requires
                q >= height,
                width > 0,
        ;
    }
}

/// Every pixel that is emitted lies inside the image.
pub proof fn lemma_pixel_at_inside(width: nat, height: nat, k: nat)
    requires
        width * height <= u64::MAX,
        k < width * height,
    ensures
        pixel_at(width, height, k).column < width,
        pixel_at(width, height, k).row < height,
        pixel_at(width, height, k).column == k % width,
        pixel_at(width, height, k).row == height - 1 - k / width,
{
    lemma_quotient(width, height, k);
}

/// Of `k` below `width * height`: `width` is positive, the remainder of
/// `k` by `width` is below `width`, and the quotient is below `height`.
proof fn lemma_quotient(width: nat, height: nat, k: nat)
    requires
        k < width * height,
    ensures
        width > 0,
        height > 0,
        0 <= k % width < width,
        0 <= k / width < height,
        k == (k / width) * width + k % width,
        width <= width * height,
        height <= width * height,
{
    assert(width > 0 && height > 0) by (nonlinear_arith)
        requires
            k < width * height,
    ;
    let q = k / width;
    let r = k % width;
    assert(k == q * width + r && 0 <= r < width && 0 <= q) by (nonlinear_arith)
        requires
            q == k / width,
            r == k % width,
            width > 0,
    ;
    lemma_split(width, height, q, r);
    assert(width <= width * height && height <= width * height) by (nonlinear_arith)
        requires
            width > 0,
            height > 0,
    ;
}

/// The order of emission counts the pixels of the image: each place
/// inside the image is the place of one step of the order, and of no other.
pub proof fn lemma_order_is_one_to_one(width: nat, height: nat, k: nat, pixel: Pixel)
    requires
        width * height <= u64::MAX,
    ensures
        k < width * height ==> index_of(width, height, pixel_at(width, height, k)) == k,
        pixel.column < width && pixel.row < height ==> {
            &&& index_of(width, height, pixel) < width * height
            &&& pixel_at(width, height, index_of(width, height, pixel)) == pixel
        },
{
    if k < width * height {
        lemma_quotient(width, height, k);
    }
    if pixel.column < width && pixel.row < height {
        let q = (height - 1 - pixel.row) as nat;
        lemma_split(width, height, q, pixel.column as nat);
    }
}

/// Rows are emitted from the top down, and the pixels of one row from
/// left to right.
pub proof fn lemma_order_is_row_major(width: nat, height: nat, k1: nat, k2: nat)
    requires
        width * height <= u64::MAX,
        k1 < k2 < width * height,
    ensures
        ({
            let first = pixel_at(width, height, k1);
            let second = pixel_at(width, height, k2);
            first.row > second.row || (first.row == second.row && first.column < second.column)
        }),
{
    lemma_quotient(width, height, k1);
    lemma_quotient(width, height, k2);
    let q1 = k1 / width;
    let q2 = k2 / width;
    if q1 > q2 {
        assert(q1 * width >= q2 * width + width) by (nonlinear_arith)
            requires
                q1 >= q2 + 1,
        ;
    }
}

/// Where the work on an image stands.
pub ghost struct Progress {
    pub width: nat,
    pub height: nat,
    /// The number of samples that each pixel takes.
    pub samples: nat,
    /// The number of pixels emitted.
    pub emitted: nat,
    /// The number of samples taken of the present pixel.
    pub turn: nat,
}

impl Progress {
    /// The work on an image before its first step.
    pub open spec fn start(width: nat, height: nat, samples: nat) -> Progress {
        Progress { width, height, samples, emitted: 0, turn: 0 }
    }

    /// The number of pixels of the image.
    pub open spec fn pixels(self) -> nat {
        self.width * self.height
    }

    /// What holds at every step: no more pixels are emitted than the
    /// image has, nor more samples taken of one than it takes.
    pub open spec fn wf(self) -> bool {
        &&& self.emitted <= self.pixels()
        &&& self.turn <= self.samples
        &&& self.emitted == self.pixels() ==> self.turn == 0
    }

    /// Whether every pixel has been emitted.
    pub open spec fn finished(self) -> bool {
        self.emitted >= self.pixels()
    }

    /// The number of steps taken.
    pub open spec fn steps(self) -> nat {
        self.emitted * (self.samples + 1) + self.turn
    }

    /// The step to take now: the samples of the present pixel, one by
    /// one, then its emission.
    pub open spec fn action(self) -> Action {
        if self.finished() {
            Action::Finish
        } else if self.turn < self.samples {
            Action::Sample(pixel_at(self.width, self.height, self.emitted))
        } else {
            Action::Emit(pixel_at(self.width, self.height, self.emitted))
        }
    }

    /// Where the work stands after that step.
    pub open spec fn next(self) -> Progress {
        if self.finished() {
            self
        } else if self.turn < self.samples {
            Progress { turn: self.turn + 1, ..self }
        } else {
            Progress { emitted: self.emitted + 1, turn: 0, ..self }
        }
    }

    /// Where the work stands after `n` more steps.
    pub open spec fn after(self, n: nat) -> Progress
        decreases n,
    {
        if n == 0 {
            self
        } else {
            self.after((n - 1) as nat).next()
        }
    }
}

/// After `n` steps from the start, `n / (samples + 1)` pixels are emitted
/// and `n % (samples + 1)` samples taken of the next: each pixel takes
/// `samples + 1` steps. The work is finished after
/// `width * height * (samples + 1)` steps, and not before.
pub proof fn lemma_steps(width: nat, height: nat, samples: nat, n: nat)
    requires
        n <= width * height * (samples + 1),
    ensures
        ({
            let now = Progress::start(width, height, samples).after(n);
            &&& now.width == width && now.height == height && now.samples == samples
            &&& now.wf()
            &&& now.steps() == n
            &&& now.emitted == n / (samples + 1)
            &&& now.turn == n % (samples + 1)
            &&& now.finished() <==> n == width * height * (samples + 1)
        }),
    decreases n,
{
    let first = Progress::start(width, height, samples);
    let total = width * height * (samples + 1);
    if n == 0 {
        assert(first.steps() == 0) by (nonlinear_arith)
            requires
                first.steps() == 0 * (samples + 1) + 0,
        ;
        assert(first.finished() <==> total == 0) by (nonlinear_arith)
            requires
                first.finished() <==> 0 >= width * height,
                total == width * height * (samples + 1),
        ;
    } else {
        lemma_steps(width, height, samples, (n - 1) as nat);
        let before = first.after((n - 1) as nat);
        let now = first.after(n);
        let pixels = width * height;
        assert(now == before.next());
        assert(before.width == width && before.height == height && before.samples == samples);
        assert(before.emitted < pixels);
        if before.turn < samples {
            assert(now.emitted == before.emitted && now.turn == before.turn + 1);
        } else {
            assert(now.emitted == before.emitted + 1 && now.turn == 0);
            assert((before.emitted + 1) * (samples + 1) == before.emitted * (samples + 1) + samples
                + 1) by (nonlinear_arith);
        }
        assert(now.steps() == n);
        assert(now.emitted <= pixels);
        if now.emitted == pixels {
            assert(now.emitted * (samples + 1) == total);
        } else {
            assert((now.emitted + 1) * (samples + 1) <= total) by (nonlinear_arith)
                requires
                    now.emitted + 1 <= pixels,
                    total == pixels * (samples + 1),
            ;
            assert((now.emitted + 1) * (samples + 1) == now.emitted * (samples + 1) + samples + 1)
                by (nonlinear_arith);
        }
    }
    let now = first.after(n);
    lemma_fundamental_div_mod_converse(
        n as int,
        (samples + 1) as int,
        now.emitted as int,
        now.turn as int,
    );
}

/// The driver and the sink count alike. Where the sink of an image has
/// received one pixel for each emission of the work on that image, the
/// sink is complete exactly when the work is finished: until then it has
/// room for the next pixel, and then for none.
pub proof fn lemma_sink_keeps_pace(progress: Progress, image: Image)
    requires
        progress.wf(),
        image.width == progress.width,
        image.height == progress.height,
        image.pixels.len() == progress.emitted,
    ensures
        image.complete() <==> progress.finished(),
        progress.action() is Emit ==> !image.complete(),
        progress.action() == Action::Finish ==> image.complete(),
{
}

/// The state of the work on one image.
#[derive(Clone, Copy, Debug)]
pub struct Driver {
    width: u64,
    height: u64,
    samples: u32,
    /// The column of the present pixel.
    column: u64,
    /// The number of rows that are not yet emitted in full.
    rows_left: u64,
    /// The number of samples taken of the present pixel.
    turn: u32,
}

impl View for Driver {
    type V = Progress;

    closed spec fn view(&self) -> Progress {
        Progress {
            width: self.width as nat,
            height: self.height as nat,
            samples: self.samples as nat,
            emitted: ((self.height - self.rows_left) * self.width + self.column) as nat,
            turn: self.turn as nat,
        }
    }
}

impl Driver {
    #[verifier::type_invariant]
    spec fn inv(self) -> bool {
        &&& self.width * self.height <= u64::MAX
        &&& self.rows_left <= self.height
        &&& self.turn <= self.samples
        &&& if self.rows_left == 0 {
            self.column == 0 && self.turn == 0
        } else {
            self.column < self.width
        }
    }

    /// The bounds of the view follow from those of the state.
    proof fn lemma_view(self)
        requires
            self.inv(),
        ensures
            self@.wf(),
            self@.pixels() <= u64::MAX,
            self@.finished() <==> self.rows_left == 0,
            !self@.finished() ==> pixel_at(self@.width, self@.height, self@.emitted) == (Pixel {
                column: self.column,
                row: (self.rows_left - 1) as u64,
            }),
    {
        let q = (self.height - self.rows_left) as nat;
        if self.rows_left > 0 {
            lemma_split(self.width as nat, self.height as nat, q, self.column as nat);
        } else {
            assert(self@.emitted == self.width * self.height) by (nonlinear_arith)
                requires
                    self@.emitted == (self.height - 0) * self.width + 0,
            ;
        }
    }

    /// The work on an image of `width` columns and `height` rows, with
    /// `samples` samples to each pixel, before its first step.
    pub fn new(width: u64, height: u64, samples: u32) -> (driver: Driver)
        requires
            width * height <= u64::MAX,
        ensures
            driver@ == Progress::start(width as nat, height as nat, samples as nat),
            driver@.wf(),
    {
        let rows_left = if width == 0 {
            0
        } else {
            height
        };
        let driver = Driver { width, height, samples, column: 0, rows_left, turn: 0 };
        proof {
            assert((height - rows_left) * width == 0) by (nonlinear_arith)
                requires
                    rows_left == height || width == 0,
            ;
            driver.lemma_view();
        }
        driver
    }

    /// Takes the next step, and says what it is.
    pub fn next(&mut self) -> (action: Action)
        ensures
            action == old(self)@.action(),
            final(self)@ == old(self)@.next(),
            final(self)@.wf(),
    {
        proof {
            use_type_invariant(&*self);
            self.lemma_view();
        }
        if self.rows_left == 0 {
            return Action::Finish;
        }
        let pixel = Pixel { column: self.column, row: self.rows_left - 1 };
        if self.turn < self.samples {
            self.turn = self.turn + 1;
            proof {
                self.lemma_view();
            }
            return Action::Sample(pixel);
        }
        let ghost before = *self;
        if self.column + 1 < self.width {
            *self = Driver { column: self.column + 1, turn: 0, ..*self };
        } else {
            *self = Driver { column: 0, rows_left: self.rows_left - 1, turn: 0, ..*self };
            assert(self@.emitted == before@.emitted + 1) by (nonlinear_arith)
                requires
                    self@.emitted == (before.height - (before.rows_left - 1)) * before.width + 0,
                    before@.emitted == (before.height - before.rows_left) * before.width
                        + before.column,
                    before.column + 1 == before.width,
            ;
        }
        proof {
            self.lemma_view();
        }
        Action::Emit(pixel)
    }

    /// The number of pixels emitted so far.
    pub fn emitted(&self) -> (n: u64)
        ensures
            n == self@.emitted,
            self@.wf(),
    {
        proof {
            use_type_invariant(self);
            self.lemma_view();
            assert((self.height - self.rows_left) * self.width <= self.height * self.width)
                by (nonlinear_arith)
                requires
                    self.rows_left <= self.height,
            ;
        }
        (self.height - self.rows_left) * self.width + self.column
    }

    /// Whether every pixel has been emitted.
    pub fn is_finished(&self) -> (done: bool)
        ensures
            done == self@.finished(),
            self@.wf(),
    {
        proof {
            use_type_invariant(self);
            self.lemma_view();
        }
        self.rows_left == 0
    }
}

} // verus!

use vstd::prelude::*;

use crate::pixel::ExtraChannelType;

verus! {

/// A channel of a rendered frame: one of the colour channels, or one of the
/// extra channels, by position.
#[derive(Debug, Copy, Clone, PartialEq, Eq, Structural)]
pub enum ChannelRef {
    Color(usize),
    Extra(usize),
}

/// Where one sample of an oriented image comes from: a channel and the
/// position in that channel's grid, which is not oriented.
#[derive(Debug, Copy, Clone, PartialEq, Eq, Structural)]
pub struct SamplePosition {
    pub channel: ChannelRef,
    pub x: u32,
    pub y: u32,
}

/// The position in the unoriented image of pixel (`x`, `y`) of the image
/// shown with EXIF orientation `orientation`, which is `width` by
/// `height` once oriented.
pub open spec fn spec_original_coord(orientation: u32, width: u32, height: u32, x: u32, y: u32) -> (int, int) {
    let w = width as int;
    let h = height as int;
    let x = x as int;
    let y = y as int;
    if orientation == 1 {
        (x, y)
    } else if orientation == 2 {
        (w - x - 1, y)
    } else if orientation == 3 {
        (w - x - 1, h - y - 1)
    } else if orientation == 4 {
        (x, h - y - 1)
    } else if orientation == 5 {
        (y, x)
    } else if orientation == 6 {
        (y, w - x - 1)
    } else if orientation == 7 {
        (h - y - 1, w - x - 1)
    } else {
        (h - y - 1, x)
    }
}

/// The unoriented size of an image that is `width` by `height` once shown
/// with `orientation`: orientations 5 to 8 transpose.
pub open spec fn unoriented_size(orientation: u32, width: u32, height: u32) -> (int, int) {
    if orientation >= 5 {
        (height as int, width as int)
    } else {
        (width as int, height as int)
    }
}

/// Orientation maps every pixel of the oriented image into the unoriented
/// image, and no two pixels to the same place: it is a bijection.
pub proof fn law_orientation_is_bijective(
    orientation: u32,
    width: u32,
    height: u32,
    x1: u32,
    y1: u32,
    x2: u32,
    y2: u32,
)
    requires
        1 <= orientation <= 8,
        x1 < width,
        y1 < height,
        x2 < width,
        y2 < height,
    ensures
        ({
            let (ox, oy) = spec_original_coord(orientation, width, height, x1, y1);
            let (uw, uh) = unoriented_size(orientation, width, height);
            0 <= ox < uw && 0 <= oy < uh
        }),
        spec_original_coord(orientation, width, height, x1, y1) == spec_original_coord(
            orientation,
            width,
            height,
            x2,
            y2,
        ) ==> x1 == x2 && y1 == y2,
{
}

/// Linear position of sample `c` of pixel (`x`, `y`) in a stream that
/// interleaves `channels` channels of a `width`-wide image, row by row.
pub open spec fn linear_index(y: int, x: int, c: int, width: int, channels: int) -> int {
    (y * width + x) * channels + c
}

proof fn lemma_linear_decode(y: int, x: int, c: int, width: int, channels: int)
    requires
        0 <= y,
        0 <= x < width,
        0 <= c < channels,
    ensures
        linear_index(y, x, c, width, channels) % channels == c,
        linear_index(y, x, c, width, channels) / channels == y * width + x,
        (y * width + x) % width == x,
        (y * width + x) / width == y,
{
    vstd::arithmetic::div_mod::lemma_fundamental_div_mod_converse(
        linear_index(y, x, c, width, channels),
        channels,
        y * width + x,
        c,
    );
    assert((y * width + x) == y * width + x);
    vstd::arithmetic::div_mod::lemma_fundamental_div_mod_converse(y * width + x, width, y, x);
}

proof fn lemma_linear_bound(y: int, x: int, c: int, width: int, height: int, channels: int)
    requires
        0 <= y <= height,
        0 <= x <= width,
        0 <= c <= channels,
        x == width ==> c == 0,
        y == height ==> x == 0 && c == 0,
    ensures
        0 <= linear_index(y, x, c, width, channels) <= height * width * channels,
        y < height && x < width && c < channels ==> linear_index(y, x, c, width, channels) < height
            * width * channels,
{
    if y == height {
        assert((height * width + 0) * channels + 0 == height * width * channels) by (nonlinear_arith);
        assert(0 <= height * width * channels) by (nonlinear_arith)
            requires
                0 <= height,
                0 <= width,
                0 <= channels,
        ;
    } else {
        assert(0 <= (y * width + x) * channels + c) by (nonlinear_arith)
            requires
                0 <= y,
                0 <= x,
                0 <= width,
                0 <= c,
                0 <= channels,
        ;
        if x == width {
            assert((y * width + width) * channels + c <= height * width * channels) by (nonlinear_arith)
                requires
                    0 <= y < height,
                    0 <= width,
                    0 <= channels,
                    c == 0,
            ;
        } else {
            assert(y * width + x + 1 <= height * width) by (nonlinear_arith)
                requires
                    0 <= y < height,
                    0 <= x < width,
            ;
            assert((y * width + x) * channels + c <= (y * width + x + 1) * channels) by (nonlinear_arith)
                requires
                    0 <= y,
                    0 <= x,
                    0 <= width,
                    0 <= c <= channels,
            ;
            assert((y * width + x + 1) * channels <= height * width * channels) by (nonlinear_arith)
                requires
                    y * width + x + 1 <= height * width,
                    0 <= channels,
            ;
            if c < channels {
                assert((y * width + x) * channels + c < (y * width + x + 1) * channels) by (nonlinear_arith)
                    requires
                        0 <= c < channels,
            ;
            }
        }
    }
}

proof fn lemma_linear_steps(y: int, x: int, width: int, channels: int)
    ensures
        linear_index(y, x, channels, width, channels) == linear_index(y, x + 1, 0, width, channels),
        linear_index(y, width, 0, width, channels) == linear_index(y + 1, 0, 0, width, channels),
{
    assert((y * width + x) * channels + channels == (y * width + x + 1) * channels) by (nonlinear_arith);
    assert((y * width + width) * channels == ((y + 1) * width + 0) * channels) by (nonlinear_arith);
}

/// Image stream that hands out, sample by sample, where the samples of an
/// oriented, channel-interleaved image come from.
pub struct ImageStream {
    orientation: u32,
    width: u32,
    height: u32,
    grids: Vec<ChannelRef>,
    y: u32,
    x: u32,
    c: u32,
}

impl ImageStream {
    /// The EXIF orientation.
    pub closed spec fn spec_orientation(&self) -> u32 {
        self.orientation
    }

    /// The oriented width.
    pub closed spec fn spec_width(&self) -> u32 {
        self.width
    }

    /// The oriented height.
    pub closed spec fn spec_height(&self) -> u32 {
        self.height
    }

    /// The channels that each pixel interleaves, in order.
    pub closed spec fn spec_grids(&self) -> Seq<ChannelRef> {
        self.grids@
    }

    /// How many samples the stream has handed out.
    pub closed spec fn position(&self) -> int {
        linear_index(self.y as int, self.x as int, self.c as int, self.width as int, self.grids@.len() as int)
    }

    /// The number of samples of the whole image.
    pub open spec fn total(&self) -> int {
        self.spec_height() * self.spec_width() * self.spec_grids().len()
    }

    /// Where sample `i` of the stream comes from: samples run through the
    /// channels of a pixel, pixels through a row, rows from the top.
    pub open spec fn sample_at(&self, i: int) -> SamplePosition {
        let channels = self.spec_grids().len() as int;
        let c = i % channels;
        let pixel = i / channels;
        let x = pixel % (self.spec_width() as int);
        let y = pixel / (self.spec_width() as int);
        let (ox, oy) = spec_original_coord(
            self.spec_orientation(),
            self.spec_width(),
            self.spec_height(),
            x as u32,
            y as u32,
        );
        SamplePosition { channel: self.spec_grids()[c], x: ox as u32, y: oy as u32 }
    }

    /// The stream's cursor is at a sample of the image, or at its end.
    pub closed spec fn wf(&self) -> bool {
        &&& 1 <= self.orientation <= 8
        &&& self.grids@.len() <= u32::MAX
        &&& self.y <= self.height
        &&& (self.x == self.width ==> self.c == 0)
        &&& (self.y < self.height ==> (self.x < self.width && self.c < self.grids@.len()) || (
        self.x == 0 && self.c == 0 && (self.width == 0 || self.grids@.len() == 0)))
        &&& (self.y == self.height ==> self.x == 0 && self.c == 0)
    }

    /// A well-formed stream has an EXIF orientation from 1 to 8, and has
    /// handed out between none and all of the image's samples.
    pub proof fn lemma_wf_bounds(&self)
        requires
            self.wf(),
        ensures
            1 <= self.spec_orientation() <= 8,
            0 <= self.position() <= self.total(),
    {
        lemma_linear_bound(
            self.y as int,
            self.x as int,
            self.c as int,
            self.width as int,
            self.height as int,
            self.grids@.len() as int,
        );
    }

    /// A stream at the start of an image that is `width` by `height` once
    /// oriented, interleaving `grids`.
    pub fn new(orientation: u32, width: u32, height: u32, grids: Vec<ChannelRef>) -> (r: ImageStream)
        requires
            1 <= orientation <= 8,
            grids@.len() <= u32::MAX,
        ensures
            r.wf(),
            r.spec_orientation() == orientation,
            r.spec_width() == width,
            r.spec_height() == height,
            r.spec_grids() == grids@,
            r.position() == 0,
    {
        let r = ImageStream { orientation, width, height, grids, y: 0, x: 0, c: 0 };
        assert((0 * (width as int) + 0) * (r.grids@.len() as int) + 0 == 0) by (nonlinear_arith);
        r
    }

    /// Returns width of the image.
    pub fn width(&self) -> (r: u32)
        ensures
            r == self.spec_width(),
    {
        self.width
    }

    /// Returns height of the image.
    pub fn height(&self) -> (r: u32)
        ensures
            r == self.spec_height(),
    {
        self.height
    }

    /// Returns the number of channels of the image.
    pub fn channels(&self) -> (r: u32)
        requires
            self.wf(),
        ensures
            r == self.spec_grids().len(),
    {
        self.grids.len() as u32
    }

    /// The position in the unoriented grids of pixel (`x`, `y`) of the
    /// oriented image.
    pub fn to_original_coord(&self, x: u32, y: u32) -> (r: (u32, u32))
        requires
            self.wf(),
            x < self.spec_width(),
            y < self.spec_height(),
        ensures
            (r.0 as int, r.1 as int) == spec_original_coord(
                self.spec_orientation(),
                self.spec_width(),
                self.spec_height(),
                x,
                y,
            ),
    {
        let width: u32 = self.width;
        let height: u32 = self.height;
        match self.orientation {
            1 => (x, y),
            2 => (width - x - 1, y),
            3 => (width - x - 1, height - y - 1),
            4 => (x, height - y - 1),
            5 => (y, x),
            6 => (y, width - x - 1),
            7 => (height - y - 1, width - x - 1),
            _ => (height - y - 1, x),
        }
    }

    /// Fills `buf` from the front with where the next samples come from,
    /// as far as the image lasts, and returns how many it filled.
    pub fn write_to_buffer(&mut self, buf: &mut Vec<SamplePosition>) -> (count: usize)
        requires
            old(self).wf(),
        ensures
            final(self).wf(),
            final(self).spec_orientation() == old(self).spec_orientation(),
            final(self).spec_width() == old(self).spec_width(),
            final(self).spec_height() == old(self).spec_height(),
            final(self).spec_grids() == old(self).spec_grids(),
            count as int == if old(buf).len() <= old(self).total() - old(self).position() {
                old(buf).len() as int
            } else {
                old(self).total() - old(self).position()
            },
            final(self).position() == old(self).position() + count,
            final(buf).len() == old(buf).len(),
            forall|k: int| 0 <= k < count ==> #[trigger] final(buf)@[k] == old(self).sample_at(old(self).position() + k),
            forall|k: int| count <= k < old(buf).len() ==> #[trigger] final(buf)@[k] == old(buf)@[k],
    {
        let ghost start = self.position();
        let ghost s0 = *self;
        let channels: u32 = self.grids.len() as u32;
        let n: usize = buf.len();
        let mut count: usize = 0;
        proof {
            lemma_linear_bound(self.y as int, self.x as int, self.c as int, self.width as int, self.height as int, channels as int);
        }
        loop
            invariant
                1 <= self.orientation <= 8,
                self.orientation == s0.orientation,
                self.width == s0.width,
                self.height == s0.height,
                self.grids == s0.grids,
                channels as int == self.grids@.len(),
                self.y <= self.height,
                self.x <= self.width,
                self.c <= channels,
                self.x == self.width ==> self.c == 0,
                self.y == self.height ==> self.x == 0 && self.c == 0,
                self.position() <= self.total(),
                self.position() == start + count,
                start == s0.position(),
                count <= n,
                buf.len() == n,
                n == old(buf).len(),
                s0 == *old(self),
                forall|k: int| 0 <= k < count ==> #[trigger] buf@[k] == s0.sample_at(start + k),
                forall|k: int| count <= k < n ==> #[trigger] buf@[k] == old(buf)@[k],
                self.grids@.len() <= u32::MAX,
            ensures
                self.y == self.height && self.position() == self.total() || (count == n && self.y
                    < self.height && self.x < self.width && self.c < channels),
            decreases self.height - self.y, self.width - self.x, channels - self.c,
        {
            if self.y >= self.height {
                proof {
                    let h = self.height as int;
                    let w = self.width as int;
                    let cc = channels as int;
                    assert((h * w + 0) * cc + 0 == h * w * cc) by (nonlinear_arith);
                }
                break;
            }
            if self.x >= self.width {
                proof {
                    lemma_linear_steps(self.y as int, self.x as int, self.width as int, channels as int);
                }
                self.x = 0;
                self.y = self.y + 1;
                proof {
                    lemma_linear_bound(self.y as int, self.x as int, self.c as int, self.width as int, self.height as int, channels as int);
                }
                continue;
            }
            if self.c >= channels {
                proof {
                    lemma_linear_steps(self.y as int, self.x as int, self.width as int, channels as int);
                }
                self.c = 0;
                self.x = self.x + 1;
                proof {
                    lemma_linear_bound(self.y as int, self.x as int, self.c as int, self.width as int, self.height as int, channels as int);
                }
                continue;
            }
            if count >= n {
                break;
            }
            proof {
                lemma_linear_bound(self.y as int, self.x as int, self.c as int, self.width as int, self.height as int, channels as int);
            }
            let (ox, oy) = self.to_original_coord(self.x, self.y);
            let pos = SamplePosition { channel: self.grids[self.c as usize], x: ox, y: oy };
            proof {
                lemma_linear_decode(self.y as int, self.x as int, self.c as int, self.width as int, channels as int);
                assert(s0.sample_at(start + count) == pos);
            }
            buf.set(count, pos);
            count = count + 1;
            self.c = self.c + 1;
            proof {
                lemma_linear_bound(self.y as int, self.x as int, self.c as int, self.width as int, self.height as int, channels as int);
            }
        }
        count
    }
}


/// Splits a stream position into its pixel and channel.
proof fn lemma_split_index(i: int, channels: int, width: int, height: int)
    requires
        0 <= i < height * width * channels,
        0 < channels,
        0 < width,
    ensures
        0 <= i % channels < channels,
        i == (i / channels) * channels + i % channels,
        0 <= i / channels < height * width,
        0 <= (i / channels) % width < width,
        0 <= (i / channels) / width < height,
        i / channels == ((i / channels) / width) * width + (i / channels) % width,
{
    vstd::arithmetic::div_mod::lemma_fundamental_div_mod(i, channels);
    vstd::arithmetic::div_mod::lemma_mod_bound(i, channels);
    let p = i / channels;
    vstd::arithmetic::mul::lemma_mul_is_commutative(channels, p);
    assert(0 <= p) by (nonlinear_arith)
        requires
            0 <= i,
            0 < channels,
            p == i / channels,
    ;
    assert(p < height * width) by (nonlinear_arith)
        requires
            p * channels + i % channels == i,
            0 <= i % channels,
            i < height * width * channels,
            0 < channels,
    ;
    vstd::arithmetic::div_mod::lemma_fundamental_div_mod(p, width);
    vstd::arithmetic::div_mod::lemma_mod_bound(p, width);
    vstd::arithmetic::mul::lemma_mul_is_commutative(width, p / width);
    assert(0 <= p / width < height) by (nonlinear_arith)
        requires
            (p / width) * width + p % width == p,
            0 <= p % width < width,
            0 <= p < height * width,
            0 < width,
    ;
}

/// A stream hands out every sample at most once: as long as its channels
/// are distinct, two different positions of the stream come from
/// different places, and every place lies inside the unoriented grid.
pub proof fn law_stream_samples_distinct(s: ImageStream, i: int, j: int)
    requires
        s.wf(),
        0 <= i < s.total(),
        0 <= j < s.total(),
        i != j,
        s.spec_grids().no_duplicates(),
    ensures
        s.sample_at(i) != s.sample_at(j),
        ({
            let (uw, uh) = unoriented_size(s.spec_orientation(), s.spec_width(), s.spec_height());
            s.sample_at(i).x < uw && s.sample_at(i).y < uh
        }),
{
    let c = s.spec_grids().len() as int;
    let w = s.spec_width() as int;
    let h = s.spec_height() as int;
    assert(0 < c && 0 < w && 0 < h) by (nonlinear_arith)
        requires
            0 <= i < h * w * c,
            0 <= h,
            0 <= w,
            0 <= c,
    ;
    lemma_split_index(i, c, w, h);
    lemma_split_index(j, c, w, h);
    let pi = i / c;
    let pj = j / c;
    let xi = (pi % w) as u32;
    let yi = (pi / w) as u32;
    let xj = (pj % w) as u32;
    let yj = (pj / w) as u32;
    law_orientation_is_bijective(s.spec_orientation(), s.spec_width(), s.spec_height(), xi, yi, xj, yj);
    if i % c == j % c {
        if pi == pj {
            assert(i == j);
        } else {
            assert(xi != xj || yi != yj);
        }
    } else {
        assert(s.spec_grids()[i % c] != s.spec_grids()[j % c]);
    }
}

/// The oriented pixel that shows unoriented pixel (`ox`, `oy`).
pub open spec fn spec_oriented_coord(orientation: u32, width: u32, height: u32, ox: int, oy: int) -> (int, int) {
    let w = width as int;
    let h = height as int;
    if orientation == 1 {
        (ox, oy)
    } else if orientation == 2 {
        (w - ox - 1, oy)
    } else if orientation == 3 {
        (w - ox - 1, h - oy - 1)
    } else if orientation == 4 {
        (ox, h - oy - 1)
    } else if orientation == 5 {
        (oy, ox)
    } else if orientation == 6 {
        (w - oy - 1, ox)
    } else if orientation == 7 {
        (w - oy - 1, h - ox - 1)
    } else {
        (oy, h - ox - 1)
    }
}

/// A stream hands out every sample at least once: each place of each of
/// its channels in the unoriented grid comes at some position of the
/// stream. With `law_stream_samples_distinct`, a stream over distinct
/// channels hands out every sample exactly once.
pub proof fn law_stream_covers_every_sample(s: ImageStream, c: int, ox: int, oy: int)
    requires
        s.wf(),
        0 <= c < s.spec_grids().len(),
        ({
            let (uw, uh) = unoriented_size(s.spec_orientation(), s.spec_width(), s.spec_height());
            0 <= ox < uw && 0 <= oy < uh
        }),
    ensures
        exists|i: int|
            0 <= i < s.total() && #[trigger] s.sample_at(i) == (SamplePosition {
                channel: s.spec_grids()[c],
                x: ox as u32,
                y: oy as u32,
            }),
{
    let channels = s.spec_grids().len() as int;
    let w = s.spec_width() as int;
    let h = s.spec_height() as int;
    let (x, y) = spec_oriented_coord(s.spec_orientation(), s.spec_width(), s.spec_height(), ox, oy);
    assert(0 <= x < w && 0 <= y < h);
    let i = linear_index(y, x, c, w, channels);
    lemma_linear_decode(y, x, c, w, channels);
    lemma_linear_bound(y, x, c, w, h, channels);
    assert(s.sample_at(i) == SamplePosition { channel: s.spec_grids()[c], x: ox as u32, y: oy as u32 });
}

/// Extra channel of the image: its kind, its name, and which of the
/// renderer's output grids holds its samples.
#[derive(Debug)]
pub struct ExtraChannel {
    ty: ExtraChannelType,
    name: String,
    grid: usize,
}

impl ExtraChannel {
    /// The kind of the channel.
    pub closed spec fn spec_ty(&self) -> ExtraChannelType {
        self.ty
    }

    /// The name of the channel.
    pub closed spec fn spec_name(&self) -> Seq<char> {
        self.name@
    }

    /// The output grid that holds the channel's samples.
    pub closed spec fn spec_grid(&self) -> usize {
        self.grid
    }

    /// An extra channel of kind `ty` named `name`, held in output grid `grid`.
    pub fn new(ty: ExtraChannelType, name: String, grid: usize) -> (r: ExtraChannel)
        ensures
            r.spec_ty() == ty,
            r.spec_name() == name@,
            r.spec_grid() == grid,
    {
        ExtraChannel { ty, name, grid }
    }

    /// Returns the type of the extra channel.
    pub fn ty(&self) -> (r: ExtraChannelType)
        ensures
            r == self.spec_ty(),
    {
        self.ty
    }

    /// Returns the name of the channel.
    pub fn name(&self) -> (r: &str)
        ensures
            r@ == self.spec_name(),
    {
        self.name.as_str()
    }

    /// Returns the output grid that holds the channel's samples.
    pub fn grid(&self) -> (r: usize)
        ensures
            r == self.spec_grid(),
    {
        self.grid
    }

    /// Returns `true` if the channel is a black channel of CMYK image.
    pub fn is_black(&self) -> (r: bool)
        ensures
            r == (self.spec_ty() == ExtraChannelType::Black),
    {
        self.ty.is_black()
    }

    /// Returns `true` if the channel is an alpha channel.
    pub fn is_alpha(&self) -> (r: bool)
        ensures
            r == (self.spec_ty() == ExtraChannelType::Alpha),
    {
        self.ty.is_alpha()
    }

    /// Returns `true` if the channel is a spot colour channel.
    pub fn is_spot_colour(&self) -> (r: bool)
        ensures
            r == (self.spec_ty() == ExtraChannelType::SpotColour),
    {
        self.ty.is_spot_colour()
    }
}

/// Whether `i` is the first position in `ec` whose channel is of kind `ty`.
pub open spec fn is_first_of_kind(ec: Seq<ExtraChannel>, ty: ExtraChannelType, i: int) -> bool {
    &&& 0 <= i < ec.len()
    &&& ec[i].spec_ty() == ty
    &&& forall|j: int| 0 <= j < i ==> (#[trigger] ec[j]).spec_ty() != ty
}

/// Whether some channel of `ec` is of kind `ty`.
pub open spec fn has_kind(ec: Seq<ExtraChannel>, ty: ExtraChannelType) -> bool {
    exists|i: int| 0 <= i < ec.len() && (#[trigger] ec[i]).spec_ty() == ty
}

/// The position of the first channel of kind `ty` in `ec`, if any.
fn find_first_of_kind(ec: &Vec<ExtraChannel>, ty: ExtraChannelType) -> (r: Option<usize>)
    ensures
        match r {
            Some(i) => is_first_of_kind(ec@, ty, i as int),
            None => !has_kind(ec@, ty),
        },
{
    let mut i: usize = 0;
    while i < ec.len()
        invariant
            i <= ec@.len(),
            forall|j: int| 0 <= j < i ==> (#[trigger] ec@[j]).spec_ty() != ty,
        decreases ec@.len() - i,
    {
        if ec[i].ty() == ty {
            return Some(i);
        }
        i = i + 1;
    }
    None
}

/// The channels that an interleaved image of a frame holds: every colour
/// channel, then the first black channel and the first alpha channel, if
/// there are such.
pub open spec fn interleaved_channels(color_channels: nat, ec: Seq<ExtraChannel>, channels: Seq<ChannelRef>) -> bool {
    let n = color_channels as int;
    let b = if has_kind(ec, ExtraChannelType::Black) { 1int } else { 0int };
    let a = if has_kind(ec, ExtraChannelType::Alpha) { 1int } else { 0int };
    &&& channels.len() == n + b + a
    &&& forall|i: int| 0 <= i < n ==> channels[i] == ChannelRef::Color(i as usize)
    &&& b == 1 ==> exists|k: int|
        is_first_of_kind(ec, ExtraChannelType::Black, k) && channels[n] == ChannelRef::Extra(k as usize)
    &&& a == 1 ==> exists|k: int|
        is_first_of_kind(ec, ExtraChannelType::Alpha, k) && channels[n + b] == ChannelRef::Extra(
            k as usize,
        )
}

/// A frame as the renderer gave it: its place in the animation, its name
/// and duration, the orientation to show it with, the size of its colour
/// grids, and which of the output grids are colour and extra channels
/// (the colour channels are the first grids).
#[derive(Debug)]
pub struct Render {
    keyframe_index: usize,
    name: String,
    duration: u32,
    orientation: u32,
    width: usize,
    height: usize,
    color_channels: usize,
    extra_channels: Vec<ExtraChannel>,
}

impl Render {
    pub closed spec fn spec_keyframe_index(&self) -> usize {
        self.keyframe_index
    }

    pub closed spec fn spec_name(&self) -> Seq<char> {
        self.name@
    }

    pub closed spec fn spec_duration(&self) -> u32 {
        self.duration
    }

    pub closed spec fn spec_orientation(&self) -> u32 {
        self.orientation
    }

    /// The width of the colour grids.
    pub closed spec fn spec_width(&self) -> usize {
        self.width
    }

    /// The height of the colour grids.
    pub closed spec fn spec_height(&self) -> usize {
        self.height
    }

    pub closed spec fn spec_color_channels(&self) -> usize {
        self.color_channels
    }

    pub closed spec fn spec_extra_channels(&self) -> Seq<ExtraChannel> {
        self.extra_channels@
    }

    /// A rendered frame.
    pub fn new(
        keyframe_index: usize,
        name: String,
        duration: u32,
        orientation: u32,
        width: usize,
        height: usize,
        color_channels: usize,
        extra_channels: Vec<ExtraChannel>,
    ) -> (r: Render)
        ensures
            r.spec_keyframe_index() == keyframe_index,
            r.spec_name() == name@,
            r.spec_duration() == duration,
            r.spec_orientation() == orientation,
            r.spec_width() == width,
            r.spec_height() == height,
            r.spec_color_channels() == color_channels,
            r.spec_extra_channels() == extra_channels@,
    {
        Render { keyframe_index, name, duration, orientation, width, height, color_channels, extra_channels }
    }

    /// Returns the keyframe index.
    pub fn keyframe_index(&self) -> (r: usize)
        ensures
            r == self.spec_keyframe_index(),
    {
        self.keyframe_index
    }

    /// Returns the name of the frame.
    pub fn name(&self) -> (r: &str)
        ensures
            r@ == self.spec_name(),
    {
        self.name.as_str()
    }

    /// Returns how many ticks this frame is presented.
    pub fn duration(&self) -> (r: u32)
        ensures
            r == self.spec_duration(),
    {
        self.duration
    }

    /// Returns the orientation of the image.
    pub fn orientation(&self) -> (r: u32)
        ensures
            r == self.spec_orientation(),
    {
        self.orientation
    }

    /// Returns the number of colour channels, which are the first output
    /// grids.
    pub fn color_channels(&self) -> (r: usize)
        ensures
            r == self.spec_color_channels(),
    {
        self.color_channels
    }

    /// Returns the extra channels, potentially including alpha and black
    /// channels.
    pub fn extra_channels(&self) -> (r: &Vec<ExtraChannel>)
        ensures
            r@ == self.spec_extra_channels(),
    {
        &self.extra_channels
    }

    /// The channels of the interleaved image, in order: the colour
    /// channels, then the black channel and the alpha channel if there are
    /// such. Extra channels other than black and alpha are not included.
    pub fn image(&self) -> (r: Vec<ChannelRef>)
        requires
            self.spec_color_channels() + 2 <= usize::MAX,
        ensures
            interleaved_channels(self.spec_color_channels() as nat, self.spec_extra_channels(), r@),
    {
        let mut fb: Vec<ChannelRef> = Vec::new();
        let mut i: usize = 0;
        while i < self.color_channels
            invariant
                i <= self.color_channels,
                fb@.len() == i,
                forall|j: int| 0 <= j < i ==> fb@[j] == ChannelRef::Color(j as usize),
            decreases self.color_channels - i,
        {
            fb.push(ChannelRef::Color(i));
            i = i + 1;
        }
        let ghost colors = fb@;
        match find_first_of_kind(&self.extra_channels, ExtraChannelType::Black) {
            Some(k) => fb.push(ChannelRef::Extra(k)),
            None => {},
        }
        let ghost with_black = fb@;
        match find_first_of_kind(&self.extra_channels, ExtraChannelType::Alpha) {
            Some(k) => fb.push(ChannelRef::Extra(k)),
            None => {},
        }
        proof {
            assert(forall|j: int| 0 <= j < colors.len() ==> with_black[j] == colors[j]);
            assert(forall|j: int| 0 <= j < with_black.len() ==> fb@[j] == with_black[j]);
        }
        fb
    }

    /// All channels, in order: the colour channels, then every extra
    /// channel.
    pub fn image_all_channels(&self) -> (r: Vec<ChannelRef>)
        requires
            self.spec_color_channels() + self.spec_extra_channels().len() <= usize::MAX,
        ensures
            r@.len() == self.spec_color_channels() + self.spec_extra_channels().len(),
            forall|i: int| 0 <= i < self.spec_color_channels() ==> r@[i] == ChannelRef::Color(i as usize),
            forall|i: int|
                self.spec_color_channels() <= i < r@.len() ==> r@[i] == ChannelRef::Extra(
                    (i - self.spec_color_channels()) as usize,
                ),
    {
        let mut fb: Vec<ChannelRef> = Vec::new();
        let mut i: usize = 0;
        while i < self.color_channels
            invariant
                i <= self.color_channels,
                fb@.len() == i,
                forall|j: int| 0 <= j < i ==> fb@[j] == ChannelRef::Color(j as usize),
            decreases self.color_channels - i,
        {
            fb.push(ChannelRef::Color(i));
            i = i + 1;
        }
        let mut k: usize = 0;
        while k < self.extra_channels.len()
            invariant
                k <= self.extra_channels@.len(),
                self.color_channels + self.extra_channels@.len() <= usize::MAX,
                fb@.len() == self.color_channels + k,
                forall|j: int| 0 <= j < self.color_channels ==> fb@[j] == ChannelRef::Color(j as usize),
                forall|j: int| self.color_channels <= j < fb@.len() ==> fb@[j] == ChannelRef::Extra((j - self.color_channels) as usize),
            decreases self.extra_channels@.len() - k,
        {
            fb.push(ChannelRef::Extra(k));
            k = k + 1;
        }
        fb
    }

    /// The channels of the planar image, one plane per channel, in order:
    /// the colour channels, then every extra channel.
    pub fn image_planar(&self) -> (r: Vec<ChannelRef>)
        requires
            self.spec_color_channels() + self.spec_extra_channels().len() <= usize::MAX,
        ensures
            r@.len() == self.spec_color_channels() + self.spec_extra_channels().len(),
            forall|i: int| 0 <= i < self.spec_color_channels() ==> r@[i] == ChannelRef::Color(i as usize),
            forall|i: int|
                self.spec_color_channels() <= i < r@.len() ==> r@[i] == ChannelRef::Extra(
                    (i - self.spec_color_channels()) as usize,
                ),
    {
        self.image_all_channels()
    }

    /// A stream over the oriented image, interleaving the channels of
    /// `image`. The stream's size is that of the colour grids, transposed
    /// for orientations 5 to 8.
    pub fn stream(&self) -> (r: ImageStream)
        requires
            1 <= self.spec_orientation() <= 8,
            self.spec_color_channels() >= 1,
            self.spec_color_channels() + 2 <= u32::MAX,
        ensures
            r.wf(),
            r.position() == 0,
            r.spec_orientation() == self.spec_orientation(),
            self.spec_orientation() >= 5 ==> r.spec_width() == self.spec_height() as u32 && r.spec_height()
                == self.spec_width() as u32,
            self.spec_orientation() < 5 ==> r.spec_width() == self.spec_width() as u32 && r.spec_height()
                == self.spec_height() as u32,
            interleaved_channels(self.spec_color_channels() as nat, self.spec_extra_channels(), r.spec_grids()),
    {
        let orientation: u32 = self.orientation;
        let mut width: u32 = self.width as u32;
        let mut height: u32 = self.height as u32;
        if orientation >= 5 {
            let t: u32 = width;
            width = height;
            height = t;
        }
        let grids = self.image();
        ImageStream::new(orientation, width, height, grids)
    }
}

} // verus!

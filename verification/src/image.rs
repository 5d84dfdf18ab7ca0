use vstd::prelude::*;

use crate::pixel::{
    pixel_format_of, spec_pixel_format, ColourSpace, ExtraChannelType, PixelFormat, RenderedEncoding,
};
use crate::render::{ExtraChannel, Render};

verus! {

/// Description of an extra channel in the image header.
#[derive(Debug)]
pub struct ExtraChannelInfo {
    pub ty: ExtraChannelType,
    pub name: String,
}

/// What the decoder front end reads of an image header: the size, the
/// EXIF orientation, whether the image is grayscale, and its extra
/// channels.
#[derive(Debug)]
pub struct ImageHeader {
    pub width: u32,
    pub height: u32,
    pub orientation: u32,
    pub grayscale: bool,
    pub ec_info: Vec<ExtraChannelInfo>,
}

/// The kinds of the extra channels of a header.
pub open spec fn ec_kinds(ec: Seq<ExtraChannelInfo>) -> Seq<ExtraChannelType> {
    ec.map_values(|info: ExtraChannelInfo| info.ty)
}

impl ImageHeader {
    /// The width of the image once oriented: orientations 5 to 8 transpose.
    pub fn width_with_orientation(&self) -> (r: u32)
        ensures
            r == (if self.orientation > 4 { self.height } else { self.width }),
    {
        if self.orientation > 4 {
            self.height
        } else {
            self.width
        }
    }

    /// The height of the image once oriented: orientations 5 to 8 transpose.
    pub fn height_with_orientation(&self) -> (r: u32)
        ensures
            r == (if self.orientation > 4 { self.width } else { self.height }),
    {
        if self.orientation > 4 {
            self.width
        } else {
            self.height
        }
    }

    /// The kinds of the extra channels, in order.
    pub fn ec_kinds(&self) -> (r: Vec<ExtraChannelType>)
        ensures
            r@ == ec_kinds(self.ec_info@),
    {
        let mut r: Vec<ExtraChannelType> = Vec::new();
        let mut i: usize = 0;
        while i < self.ec_info.len()
            invariant
                i <= self.ec_info@.len(),
                r@ == ec_kinds(self.ec_info@.take(i as int)),
            decreases self.ec_info@.len() - i,
        {
            proof {
                assert(ec_kinds(self.ec_info@.take(i + 1)) =~= ec_kinds(self.ec_info@.take(i as int)).push(
                    self.ec_info@[i as int].ty,
                ));
            }
            r.push(self.ec_info[i].ty);
            i = i + 1;
        }
        proof {
            assert(self.ec_info@.take(i as int) =~= self.ec_info@);
        }
        r
    }
}

/// Errors of the decoder front end.
#[derive(Debug, Clone, Copy, PartialEq, Eq, Structural)]
pub enum LoadError {
    /// The image header, or the colour profile or preview after it, is invalid.
    InvalidImageHeader,
    /// A frame header is invalid.
    InvalidFrameHeader,
    /// The input ended before the image headers were complete.
    UnexpectedEof,
}

/// What the decoder front end waits for next while loading frames.
#[derive(Debug, Copy, Clone, PartialEq, Eq, Structural)]
pub enum FeedAction {
    /// Every byte fed so far is accounted for; feed more bytes.
    Done,
    /// Hand the pending bytes from `start` on to the frame being loaded,
    /// then report with `frame_fed`.
    FeedFrame { start: usize },
    /// Parse a frame header from the pending bytes from `start` on, then
    /// report with `header_parsed`.
    ParseHeader { start: usize },
}

/// The outcome of parsing a frame header.
#[derive(Debug, Copy, Clone, PartialEq, Eq, Structural)]
pub enum FrameHeaderRead {
    /// The header of frame `frame_index` took `header_bytes` bytes.
    Parsed { frame_index: usize, header_bytes: usize },
    /// The bytes end inside the header.
    NeedMoreData,
    /// The header is invalid.
    Invalid,
}

/// The bytes of `v` from position `start` on, copied.
fn copy_tail(v: &Vec<u8>, start: usize) -> (r: Vec<u8>)
    requires
        start <= v@.len(),
    ensures
        r@ == v@.skip(start as int),
{
    let mut rest: Vec<u8> = Vec::new();
    let mut i: usize = start;
    while i < v.len()
        invariant
            start <= i <= v@.len(),
            rest@ == v@.subrange(start as int, i as int),
        decreases v@.len() - i,
    {
        proof {
            assert(v@.subrange(start as int, i + 1) =~= v@.subrange(start as int, i as int).push(v@[i as int]));
        }
        rest.push(v[i]);
        i = i + 1;
    }
    proof {
        assert(rest@ =~= v@.skip(start as int));
    }
    rest
}

/// The extra channels that a render keeps: the extra grids after the
/// `color` colour grids pair up with the header's extra channels in order,
/// as far as both go; a black channel is kept only when the pixel format
/// has black. Each is given as (output grid, kind, name).
pub open spec fn kept_extra(
    ec: Seq<ExtraChannelInfo>,
    color: int,
    m: int,
    has_black: bool,
) -> Seq<(usize, ExtraChannelType, Seq<char>)>
    decreases m,
{
    if m <= 0 {
        Seq::empty()
    } else {
        let prev = kept_extra(ec, color, m - 1, has_black);
        let j = m - 1;
        if ec[j].ty != ExtraChannelType::Black || has_black {
            prev.push(((color + j) as usize, ec[j].ty, ec[j].name@))
        } else {
            prev
        }
    }
}

/// A view of extra channels as (output grid, kind, name).
pub open spec fn extra_view(ec: Seq<ExtraChannel>) -> Seq<(usize, ExtraChannelType, Seq<char>)> {
    ec.map_values(|e: ExtraChannel| (e.spec_grid(), e.spec_ty(), e.spec_name()))
}

/// The spot colour channels among `ec`, by position.
pub open spec fn spot_colours(ec: Seq<ExtraChannel>, m: int) -> Seq<usize>
    decreases m,
{
    if m <= 0 {
        Seq::empty()
    } else {
        let prev = spot_colours(ec, m - 1);
        if ec[m - 1].spec_ty() == ExtraChannelType::SpotColour {
            prev.push((m - 1) as usize)
        } else {
            prev
        }
    }
}

/// A JPEG XL image being loaded: its header, the colour encoding that it is
/// rendered in, whether spot colours are rendered, and the bookkeeping of
/// the bytes fed to it: the codestream offset of the first pending byte,
/// the pending bytes, and where each frame begins.
#[derive(Debug)]
pub struct JxlImage {
    image_header: ImageHeader,
    requested_encoding: RenderedEncoding,
    render_spot_colour: bool,
    end_of_image: bool,
    buffer: Vec<u8>,
    buffer_offset: usize,
    frame_offsets: Vec<usize>,
    cursor: usize,
    pending: FeedAction,
    resumed_frame: bool,
}

impl JxlImage {
    pub closed spec fn spec_header(&self) -> ImageHeader {
        self.image_header
    }

    pub closed spec fn spec_requested_encoding(&self) -> RenderedEncoding {
        self.requested_encoding
    }

    pub closed spec fn spec_render_spot_colour(&self) -> bool {
        self.render_spot_colour
    }

    pub closed spec fn spec_end_of_image(&self) -> bool {
        self.end_of_image
    }

    /// The bytes held for the current or the next feed.
    pub closed spec fn spec_buffer(&self) -> Seq<u8> {
        self.buffer@
    }

    /// How far into the buffer the current feed has got.
    pub closed spec fn spec_cursor(&self) -> int {
        self.cursor as int
    }

    /// The codestream offset of the first byte not yet consumed.
    pub closed spec fn spec_buffer_offset(&self) -> int {
        self.buffer_offset as int
    }

    pub closed spec fn spec_frame_offsets(&self) -> Seq<usize> {
        self.frame_offsets@
    }

    pub closed spec fn spec_pending(&self) -> FeedAction {
        self.pending
    }

    /// Whether the frame being fed was partly loaded before this feed: its
    /// bytes were then never kept with the buffer, so they are dropped from
    /// it once the frame has taken them.
    pub closed spec fn spec_resumed_frame(&self) -> bool {
        self.resumed_frame
    }

    /// The bytes fed so far that are not consumed yet.
    pub open spec fn unconsumed(&self) -> Seq<u8> {
        self.spec_buffer().skip(self.spec_cursor())
    }

    /// Every byte fed is consumed (counted in the offset) or unconsumed.
    pub open spec fn accounted(&self) -> int {
        self.spec_buffer_offset() + self.unconsumed().len()
    }

    /// Frames begin at strictly increasing offsets, all before the first
    /// byte not consumed yet.
    pub open spec fn offsets_strict(&self) -> bool {
        &&& forall|i: int, j: int|
            0 <= i < j < self.spec_frame_offsets().len() ==> self.spec_frame_offsets()[i]
                < self.spec_frame_offsets()[j]
        &&& forall|i: int|
            0 <= i < self.spec_frame_offsets().len() ==> self.spec_frame_offsets()[i]
                < self.spec_buffer_offset()
    }

    /// The loading bookkeeping is consistent.
    pub closed spec fn wf(&self) -> bool {
        &&& self.cursor <= self.buffer@.len()
        &&& self.pending != FeedAction::Done ==> self.buffer_offset + self.buffer@.len() - self.cursor <= usize::MAX
        &&& self.offsets_strict()
        &&& (self.image_header.grayscale ==> !self.render_spot_colour)
        &&& match self.pending {
            FeedAction::Done => self.cursor == 0 && !self.resumed_frame,
            FeedAction::FeedFrame { start } => start == self.cursor && !self.end_of_image,
            FeedAction::ParseHeader { start } => start == self.cursor && self.cursor < self.buffer@.len()
                && !self.end_of_image && !self.resumed_frame,
        }
    }

    /// An image whose headers end at codestream offset `buffer_offset`,
    /// with no frame loaded yet. Spot colours are rendered unless the
    /// image is grayscale.
    pub fn new(image_header: ImageHeader, requested_encoding: RenderedEncoding, buffer_offset: usize) -> (r: JxlImage)
        ensures
            r.wf(),
            r.spec_header() == image_header,
            r.spec_requested_encoding() == requested_encoding,
            r.spec_render_spot_colour() == !image_header.grayscale,
            !r.spec_end_of_image(),
            r.spec_buffer().len() == 0,
            r.spec_buffer_offset() == buffer_offset,
            r.spec_frame_offsets().len() == 0,
            r.spec_cursor() == 0,
            r.spec_pending() == FeedAction::Done,
            r.offsets_strict(),
    {
        let render_spot_colour = !image_header.grayscale;
        JxlImage {
            image_header,
            requested_encoding,
            render_spot_colour,
            end_of_image: false,
            buffer: Vec::new(),
            buffer_offset,
            frame_offsets: Vec::new(),
            cursor: 0,
            pending: FeedAction::Done,
            resumed_frame: false,
        }
    }

    /// Returns the image header.
    pub fn image_header(&self) -> (r: &ImageHeader)
        ensures
            *r == self.spec_header(),
    {
        &self.image_header
    }

    /// Returns the image width with orientation applied.
    pub fn width(&self) -> (r: u32)
        ensures
            r == (if self.spec_header().orientation > 4 { self.spec_header().height } else { self.spec_header().width }),
    {
        self.image_header.width_with_orientation()
    }

    /// Returns the image height with orientation applied.
    pub fn height(&self) -> (r: u32)
        ensures
            r == (if self.spec_header().orientation > 4 { self.spec_header().width } else { self.spec_header().height }),
    {
        self.image_header.height_with_orientation()
    }

    /// Returns the pixel format of the rendered image.
    pub fn pixel_format(&self) -> (r: PixelFormat)
        ensures
            r == spec_pixel_format(self.spec_requested_encoding(), ec_kinds(self.spec_header().ec_info@)),
    {
        let kinds = self.image_header.ec_kinds();
        pixel_format_of(&self.requested_encoding, kinds.as_slice())
    }

    /// Requests the decoder to render in an enumerated colour encoding with
    /// the given colour space.
    pub fn request_color_encoding(&mut self, colour_space: ColourSpace)
        requires
            old(self).wf(),
        ensures
            final(self).wf(),
            final(self).spec_requested_encoding() == (RenderedEncoding::Enum { colour_space }),
            final(self).spec_header() == old(self).spec_header(),
            final(self).spec_render_spot_colour() == old(self).spec_render_spot_colour(),
            final(self).spec_end_of_image() == old(self).spec_end_of_image(),
            final(self).spec_buffer() == old(self).spec_buffer(),
            final(self).spec_cursor() == old(self).spec_cursor(),
            final(self).spec_buffer_offset() == old(self).spec_buffer_offset(),
            final(self).spec_frame_offsets() == old(self).spec_frame_offsets(),
            final(self).spec_pending() == old(self).spec_pending(),
    {
        self.requested_encoding = RenderedEncoding::Enum { colour_space };
        proof { lemma_offsets_strict_kept(*old(self), *self); }
    }

    /// Returns whether the spot color channels will be rendered.
    pub fn render_spot_colour(&self) -> (r: bool)
        ensures
            r == self.spec_render_spot_colour(),
    {
        self.render_spot_colour
    }

    /// Sets whether the spot colour channels will be rendered. Spot colours
    /// are never rendered on grayscale images: asking for them there
    /// changes nothing.
    pub fn set_render_spot_colour(&mut self, render_spot_colour: bool) -> (r: &mut JxlImage)
        requires
            old(self).wf(),
        ensures
            r.wf(),
            r.spec_render_spot_colour() == if render_spot_colour && old(self).spec_header().grayscale {
                old(self).spec_render_spot_colour()
            } else {
                render_spot_colour
            },
            r.spec_header() == old(self).spec_header(),
            r.spec_requested_encoding() == old(self).spec_requested_encoding(),
            r.spec_end_of_image() == old(self).spec_end_of_image(),
            r.spec_buffer() == old(self).spec_buffer(),
            r.spec_cursor() == old(self).spec_cursor(),
            r.spec_buffer_offset() == old(self).spec_buffer_offset(),
            r.spec_frame_offsets() == old(self).spec_frame_offsets(),
            r.spec_pending() == old(self).spec_pending(),
            *final(self) == *final(r),
    {
        if render_spot_colour && self.image_header.grayscale {
            return self;
        }
        self.render_spot_colour = render_spot_colour;
        proof { lemma_offsets_strict_kept(*old(self), *self); }
        self
    }

    /// Returns whether the image is loaded completely, without missing
    /// animation keyframes or partially loaded frames.
    pub fn is_loading_done(&self) -> (r: bool)
        ensures
            r == self.spec_end_of_image(),
    {
        self.end_of_image
    }

    /// Returns the offset of frame within codestream, in bytes.
    pub fn frame_offset(&self, frame_index: usize) -> (r: Option<usize>)
        ensures
            r == (if frame_index < self.spec_frame_offsets().len() {
                Some(self.spec_frame_offsets()[frame_index as int])
            } else {
                None
            }),
    {
        if frame_index < self.frame_offsets.len() {
            Some(self.frame_offsets[frame_index])
        } else {
            None
        }
    }

    /// Whether to read more input after a read that gave `last_read`
    /// bytes: reading goes on until the image has ended or the input has.
    pub fn keeps_reading(&self, last_read: usize) -> (r: bool)
        ensures
            r == (!self.spec_end_of_image() && last_read > 0),
    {
        !self.end_of_image && last_read > 0
    }

    /// The pending bytes of the current feed; the positions in a
    /// `FeedAction` index into them.
    pub fn buffer(&self) -> (r: &Vec<u8>)
        ensures
            r@ == self.spec_buffer(),
    {
        &self.buffer
    }

    /// What the image waits for.
    pub fn pending_action(&self) -> (r: FeedAction)
        ensures
            r == self.spec_pending(),
    {
        self.pending
    }

    /// Feeds more codestream bytes. `loading_frame` says whether a frame
    /// is partly loaded (the bytes then go to it first). After the end of
    /// the image, bytes are only kept.
    pub fn feed_bytes(&mut self, buf: &[u8], loading_frame: bool) -> (r: FeedAction)
        requires
            old(self).wf(),
            old(self).spec_pending() == FeedAction::Done,
            loading_frame ==> old(self).spec_buffer().len() == 0,
            old(self).spec_buffer_offset() + old(self).spec_buffer().len() + buf@.len() <= usize::MAX,
        ensures
            final(self).wf(),
            r == final(self).spec_pending(),
            final(self).accounted() == old(self).accounted() + buf@.len(),
            final(self).unconsumed() == old(self).unconsumed() + buf@,
            final(self).spec_buffer() == old(self).spec_buffer() + buf@,
            final(self).spec_cursor() == 0,
            final(self).spec_resumed_frame() == (buf@.len() > 0 && !old(self).spec_end_of_image()
                && loading_frame),
            final(self).spec_buffer_offset() == old(self).spec_buffer_offset(),
            final(self).spec_frame_offsets() == old(self).spec_frame_offsets(),
            final(self).spec_end_of_image() == old(self).spec_end_of_image(),
            fed(*old(self), *final(self), buf@),
            final(self).offsets_strict(),
            final(self).spec_header() == old(self).spec_header(),
            final(self).spec_requested_encoding() == old(self).spec_requested_encoding(),
            final(self).spec_render_spot_colour() == old(self).spec_render_spot_colour(),
            r == if buf@.len() == 0 || old(self).spec_end_of_image() {
                FeedAction::Done
            } else if loading_frame {
                FeedAction::FeedFrame { start: 0 }
            } else {
                FeedAction::ParseHeader { start: 0 }
            },
    {
        proof {
            assert(self.buffer@.skip(0) =~= self.buffer@);
        }
        if buf.len() == 0 {
            assert(buf@ =~= Seq::<u8>::empty());
            assert(self.buffer@ + buf@ =~= self.buffer@);
            proof { lemma_offsets_strict_kept(*old(self), *self); }
            return FeedAction::Done;
        }
        let ghost before = self.buffer@;
        self.buffer.extend_from_slice(buf);
        proof {
            assert(self.buffer@ =~= before + buf@);
            assert(self.buffer@.skip(0) =~= self.buffer@);
        }
        if self.end_of_image {
            proof { lemma_offsets_strict_kept(*old(self), *self); }
            return FeedAction::Done;
        }
        if loading_frame {
            self.resumed_frame = true;
            self.pending = FeedAction::FeedFrame { start: 0 };
        } else {
            self.pending = FeedAction::ParseHeader { start: 0 };
        }
        proof { lemma_offsets_strict_kept(*old(self), *self); }
        self.pending
    }

    /// Reports that the frame being loaded took `consumed` of the pending
    /// bytes, whether it is now complete, and whether it is the last frame.
    /// The last frame ends the image; the bytes after it stay pending.
    pub fn frame_fed(&mut self, consumed: usize, done: bool, is_last: bool) -> (r: FeedAction)
        requires
            old(self).wf(),
            old(self).spec_pending() is FeedFrame,
            consumed <= old(self).unconsumed().len(),
        ensures
            final(self).wf(),
            r == final(self).spec_pending(),
            final(self).accounted() == old(self).accounted(),
            final(self).unconsumed() == old(self).unconsumed().skip(consumed as int),
            if consumed == old(self).unconsumed().len() && !(done && is_last) {
                final(self).spec_buffer().len() == 0 && final(self).spec_cursor() == 0
            } else if done && is_last || old(self).spec_resumed_frame() {
                final(self).spec_buffer() == old(self).unconsumed().skip(consumed as int)
                    && final(self).spec_cursor() == 0
            } else {
                final(self).spec_buffer() == old(self).spec_buffer() && final(self).spec_cursor()
                    == old(self).spec_cursor() + consumed
            },
            !final(self).spec_resumed_frame(),
            final(self).spec_buffer_offset() == old(self).spec_buffer_offset() + consumed,
            final(self).spec_frame_offsets() == old(self).spec_frame_offsets(),
            final(self).spec_end_of_image() == (done && is_last),
            old(self).spec_end_of_image() ==> final(self).spec_end_of_image(),
            frame_step(*old(self), *final(self), consumed as int, done && is_last),
            final(self).offsets_strict(),
            final(self).spec_header() == old(self).spec_header(),
            final(self).spec_requested_encoding() == old(self).spec_requested_encoding(),
            final(self).spec_render_spot_colour() == old(self).spec_render_spot_colour(),
            r == if done && is_last || consumed == old(self).unconsumed().len() {
                FeedAction::Done
            } else {
                FeedAction::ParseHeader { start: final(self).spec_cursor() as usize }
            },
    {
        let ghost old_unconsumed = self.buffer@.skip(self.cursor as int);
        assert(old_unconsumed.len() == self.buffer@.len() - self.cursor);
        assert(old_unconsumed == old(self).unconsumed());
        let len: usize = self.buffer.len();
        assert(consumed <= len - self.cursor);
        self.cursor = self.cursor + consumed;
        self.buffer_offset = self.buffer_offset + consumed;
        proof {
            assert(self.buffer@.skip(self.cursor as int) =~= old_unconsumed.skip(consumed as int));
        }
        if done && is_last {
            self.end_of_image = true;
            self.keep_unconsumed();
            self.resumed_frame = false;
            self.pending = FeedAction::Done;
            proof {
                lemma_offsets_strict_kept(*old(self), *self);
                assert(self.buffer@.skip(0) =~= old_unconsumed.skip(consumed as int));
            }
            return FeedAction::Done;
        }
        if self.cursor == self.buffer.len() {
            self.buffer.clear();
            self.cursor = 0;
            self.resumed_frame = false;
            self.pending = FeedAction::Done;
            proof {
                assert(self.buffer@.skip(0) =~= old_unconsumed.skip(consumed as int));
            }
            proof { lemma_offsets_strict_kept(*old(self), *self); }
            return FeedAction::Done;
        }
        if self.resumed_frame {
            self.keep_unconsumed();
            self.resumed_frame = false;
        }
        self.pending = FeedAction::ParseHeader { start: self.cursor };
        proof {
            lemma_offsets_strict_kept(*old(self), *self);
            assert(self.buffer@.skip(self.cursor as int) =~= old_unconsumed.skip(consumed as int));
        }
        self.pending
    }

    /// Drops the consumed bytes from the buffer.
    fn keep_unconsumed(&mut self)
        requires
            old(self).cursor <= old(self).buffer@.len(),
        ensures
            final(self).buffer@ == old(self).buffer@.skip(old(self).cursor as int),
            final(self).cursor == 0,
            final(self).image_header == old(self).image_header,
            final(self).requested_encoding == old(self).requested_encoding,
            final(self).render_spot_colour == old(self).render_spot_colour,
            final(self).end_of_image == old(self).end_of_image,
            final(self).buffer_offset == old(self).buffer_offset,
            final(self).frame_offsets == old(self).frame_offsets,
            final(self).pending == old(self).pending,
            final(self).resumed_frame == old(self).resumed_frame,
    {
        let rest = copy_tail(&self.buffer, self.cursor);
        self.buffer = rest;
        self.cursor = 0;
    }

    /// Reports the outcome of parsing a frame header from the pending
    /// bytes. A parsed header records where its frame begins and hands the
    /// bytes after it to the new frame; a header cut short keeps the bytes
    /// pending for the next feed.
    pub fn header_parsed(&mut self, read: FrameHeaderRead) -> (r: Result<FeedAction, LoadError>)
        requires
            old(self).wf(),
            old(self).spec_pending() is ParseHeader,
            match read {
                FrameHeaderRead::Parsed { frame_index, header_bytes } => {
                    &&& frame_index == old(self).spec_frame_offsets().len()
                    &&& 1 <= header_bytes <= old(self).unconsumed().len()
                },
                _ => true,
            },
        ensures
            final(self).wf(),
            final(self).spec_end_of_image() == old(self).spec_end_of_image(),
            final(self).spec_header() == old(self).spec_header(),
            final(self).spec_requested_encoding() == old(self).spec_requested_encoding(),
            final(self).spec_render_spot_colour() == old(self).spec_render_spot_colour(),
            final(self).offsets_strict(),
            end_kept(*old(self), *final(self)),
            read == FrameHeaderRead::NeedMoreData ==> same_loading_state(*old(self), *final(self)),
            match read {
                FrameHeaderRead::Parsed { frame_index, header_bytes } => {
                    &&& r == Ok::<FeedAction, LoadError>(final(self).spec_pending())
                    &&& final(self).spec_pending() == FeedAction::FeedFrame { start: final(self).spec_cursor() as usize }
                    &&& final(self).accounted() == old(self).accounted()
                    &&& final(self).unconsumed() == old(self).unconsumed().skip(header_bytes as int)
                    &&& final(self).spec_buffer() == old(self).spec_buffer()
                    &&& final(self).spec_cursor() == old(self).spec_cursor() + header_bytes
                    &&& final(self).spec_buffer_offset() == old(self).spec_buffer_offset() + header_bytes
                    &&& final(self).spec_frame_offsets() == old(self).spec_frame_offsets().push(
                        old(self).spec_buffer_offset() as usize,
                    )
                },
                FrameHeaderRead::NeedMoreData => {
                    &&& r == Ok::<FeedAction, LoadError>(FeedAction::Done)
                    &&& final(self).spec_pending() == FeedAction::Done
                    &&& final(self).accounted() == old(self).accounted()
                    &&& final(self).unconsumed() == old(self).unconsumed()
                    &&& final(self).spec_buffer() == old(self).unconsumed()
                    &&& final(self).spec_cursor() == 0
                    &&& final(self).spec_buffer_offset() == old(self).spec_buffer_offset()
                    &&& final(self).spec_frame_offsets() == old(self).spec_frame_offsets()
                },
                FrameHeaderRead::Invalid => {
                    &&& r == Err::<FeedAction, LoadError>(LoadError::InvalidFrameHeader)
                    &&& final(self).spec_pending() == FeedAction::Done
                    &&& final(self).spec_buffer() == old(self).spec_buffer()
                    &&& final(self).spec_cursor() == 0
                    &&& final(self).spec_buffer_offset() == old(self).spec_buffer_offset()
                    &&& final(self).spec_frame_offsets() == old(self).spec_frame_offsets()
                },
            },
            !final(self).spec_resumed_frame(),
    {
        match read {
            FrameHeaderRead::Parsed { frame_index, header_bytes } => {
                let ghost old_unconsumed = self.buffer@.skip(self.cursor as int);
                let ghost old_offsets = self.frame_offsets@;
                assert(old_unconsumed.len() == self.buffer@.len() - self.cursor);
                let len: usize = self.buffer.len();
                assert(header_bytes <= len - self.cursor);
                self.frame_offsets.push(self.buffer_offset);
                self.cursor = self.cursor + header_bytes;
                self.buffer_offset = self.buffer_offset + header_bytes;
                self.pending = FeedAction::FeedFrame { start: self.cursor };
                proof {
                    assert(self.buffer@.skip(self.cursor as int) =~= old_unconsumed.skip(header_bytes as int));
                    assert forall|i: int, j: int| 0 <= i < j < self.frame_offsets@.len() implies
                        self.frame_offsets@[i] < self.frame_offsets@[j] by {
                        if j < old_offsets.len() {
                            assert(old_offsets[i] < old_offsets[j]);
                        } else {
                            assert(old_offsets[i] < self.buffer_offset - header_bytes);
                        }
                    }
                    assert forall|i: int| 0 <= i < self.frame_offsets@.len() implies
                        self.frame_offsets@[i] < self.buffer_offset by {
                        if i < old_offsets.len() {
                            assert(old_offsets[i] < self.buffer_offset - header_bytes);
                        }
                    }
                }
                Ok(self.pending)
            },
            FrameHeaderRead::NeedMoreData => {
                self.keep_unconsumed();
                self.pending = FeedAction::Done;
                proof {
                    assert(self.buffer@.skip(0) =~= self.buffer@);
                }
                proof {
                    lemma_offsets_strict_kept(*old(self), *self);
                }
                Ok(FeedAction::Done)
            },
            FrameHeaderRead::Invalid => {
                self.cursor = 0;
                self.pending = FeedAction::Done;
                proof {
                    lemma_offsets_strict_kept(*old(self), *self);
                }
                Err(LoadError::InvalidFrameHeader)
            },
        }
    }
}


impl JxlImage {
    /// The number of colour grids that a render of this image starts with:
    /// one for grayscale output, three otherwise.
    pub open spec fn spec_color_grids(&self) -> nat {
        if spec_pixel_format(self.spec_requested_encoding(), ec_kinds(self.spec_header().ec_info@)).spec_is_grayscale() {
            1
        } else {
            3
        }
    }

    /// Sorts the `num_grids` grids that the renderer produced into colour
    /// channels and extra channels: the first grids are the colour
    /// channels, the rest pair up with the header's extra channels, and a
    /// black channel is dropped unless the output has black.
    pub fn process_render(&self, num_grids: usize) -> (r: (usize, Vec<ExtraChannel>))
        requires
            num_grids >= self.spec_color_grids(),
        ensures
            r.0 == self.spec_color_grids(),
            extra_view(r.1@) == kept_extra(
                self.spec_header().ec_info@,
                r.0 as int,
                if num_grids - r.0 <= self.spec_header().ec_info@.len() {
                    num_grids - r.0
                } else {
                    self.spec_header().ec_info@.len() as int
                },
                spec_pixel_format(self.spec_requested_encoding(), ec_kinds(self.spec_header().ec_info@)).spec_has_black(),
            ),
    {
        let pixel_format = self.pixel_format();
        let has_black = pixel_format.has_black();
        let color_channels: usize = if pixel_format.is_grayscale() { 1 } else { 3 };
        let ec_info = &self.image_header.ec_info;
        let mut m: usize = num_grids - color_channels;
        if m > ec_info.len() {
            m = ec_info.len();
        }
        let mut extra: Vec<ExtraChannel> = Vec::new();
        let mut j: usize = 0;
        while j < m
            invariant
                j <= m,
                m <= ec_info@.len(),
                m <= num_grids - color_channels,
                num_grids <= usize::MAX,
                extra_view(extra@) == kept_extra(ec_info@, color_channels as int, j as int, has_black),
            decreases m - j,
        {
            let info = &ec_info[j];
            let ghost prev = extra@;
            if info.ty != ExtraChannelType::Black || has_black {
                let channel = ExtraChannel::new(info.ty, info.name.clone(), color_channels + j);
                extra.push(channel);
                proof {
                    assert(extra_view(extra@) =~= extra_view(prev).push(
                        ((color_channels + j) as usize, info.ty, info.name@),
                    ));
                }
            }
            j = j + 1;
        }
        (color_channels, extra)
    }

    /// The extra channels whose spot colour is to be blended into the
    /// colour channels, by position in `extra`: every spot colour channel
    /// if spot colours are rendered, none otherwise.
    pub fn spot_colour_channels(&self, extra: &Vec<ExtraChannel>) -> (r: Vec<usize>)
        ensures
            r@ == if self.spec_render_spot_colour() {
                spot_colours(extra@, extra@.len() as int)
            } else {
                Seq::empty()
            },
    {
        let mut r: Vec<usize> = Vec::new();
        if !self.render_spot_colour {
            return r;
        }
        let mut i: usize = 0;
        while i < extra.len()
            invariant
                i <= extra@.len(),
                r@ == spot_colours(extra@, i as int),
            decreases extra@.len() - i,
        {
            if extra[i].is_spot_colour() {
                r.push(i);
            }
            i = i + 1;
        }
        r
    }

    /// Puts together what the renderer produced for a keyframe: its index,
    /// the name and duration from the frame header, and `num_grids` grids
    /// of `width` by `height` samples, sorted as `process_render` sorts them.
    /// The frame is shown with the image's orientation.
    pub fn assemble_render(
        &self,
        keyframe_index: usize,
        name: String,
        duration: u32,
        num_grids: usize,
        width: usize,
        height: usize,
    ) -> (r: Render)
        requires
            num_grids >= self.spec_color_grids(),
        ensures
            r.spec_keyframe_index() == keyframe_index,
            r.spec_name() == name@,
            r.spec_duration() == duration,
            r.spec_orientation() == self.spec_header().orientation,
            r.spec_width() == width,
            r.spec_height() == height,
            r.spec_color_channels() == self.spec_color_grids(),
            extra_view(r.spec_extra_channels()) == kept_extra(
                self.spec_header().ec_info@,
                self.spec_color_grids() as int,
                if num_grids - self.spec_color_grids() <= self.spec_header().ec_info@.len() {
                    num_grids - self.spec_color_grids()
                } else {
                    self.spec_header().ec_info@.len() as int
                },
                spec_pixel_format(self.spec_requested_encoding(), ec_kinds(self.spec_header().ec_info@)).spec_has_black(),
            ),
    {
        let (color_channels, extra_channels) = self.process_render(num_grids);
        Render::new(
            keyframe_index,
            name,
            duration,
            self.image_header.orientation,
            width,
            height,
            color_channels,
            extra_channels,
        )
    }
}

/// Spot colours are never rendered on a grayscale image, whatever was
/// asked with `set_render_spot_colour`.
pub proof fn law_grayscale_never_renders_spot_colour(image: JxlImage)
    requires
        image.wf(),
    ensures
        image.spec_header().grayscale ==> !image.spec_render_spot_colour(),
{
}

/// Frames are recorded in the order they appear in the codestream: each
/// begins strictly after the one before it, and every one before the first
/// byte not consumed yet.
pub proof fn law_frame_offsets_ordered(image: JxlImage)
    requires
        image.wf(),
    ensures
        forall|i: int, j: int|
            0 <= i < j < image.spec_frame_offsets().len() ==> image.spec_frame_offsets()[i]
                < image.spec_frame_offsets()[j],
        forall|i: int|
            0 <= i < image.spec_frame_offsets().len() ==> image.spec_frame_offsets()[i]
                < image.spec_buffer_offset(),
{
}

/// The codestream offset of the first byte not consumed yet fits in a
/// `usize`: the offset that `header_parsed` records for a new frame is
/// this offset itself.
pub proof fn lemma_buffer_offset_fits(image: JxlImage)
    ensures
        0 <= image.spec_buffer_offset() <= usize::MAX,
{
}

/// A step that keeps the frame offsets and does not move the consumed
/// offset back keeps them strictly ordered before it.
proof fn lemma_offsets_strict_kept(x: JxlImage, y: JxlImage)
    requires
        y.spec_frame_offsets() == x.spec_frame_offsets(),
        y.spec_buffer_offset() >= x.spec_buffer_offset(),
    ensures
        x.offsets_strict() ==> y.offsets_strict(),
{
}

/// Whether two images have settled loading alike: the same consumed
/// offset, the same pending bytes, the same frame offsets, and the same
/// end-of-image flag.
pub open spec fn same_loading_state(x: JxlImage, y: JxlImage) -> bool {
    &&& x.spec_buffer_offset() == y.spec_buffer_offset()
    &&& x.unconsumed() == y.unconsumed()
    &&& x.spec_frame_offsets() == y.spec_frame_offsets()
    &&& x.spec_end_of_image() == y.spec_end_of_image()
}

/// Whether `new` is `old` with the bytes `buf` fed: they join the pending
/// bytes and nothing else that loading has settled changes.
pub open spec fn fed(old: JxlImage, new: JxlImage, buf: Seq<u8>) -> bool {
    &&& new.spec_buffer_offset() == old.spec_buffer_offset()
    &&& new.unconsumed() == old.unconsumed() + buf
    &&& new.spec_frame_offsets() == old.spec_frame_offsets()
    &&& new.spec_end_of_image() == old.spec_end_of_image()
}

/// How the bytes are split into feeds does not matter: feeding `a`, being
/// told that a frame header needs more bytes (or asked nothing), then
/// feeding `b` leaves the image offering the frame decoder the same bytes
/// from the same offset, with the same frames and end flag, as feeding
/// `a` and `b` in one piece.
pub proof fn law_feed_chunks(
    x0: JxlImage,
    x1: JxlImage,
    x2: JxlImage,
    x3: JxlImage,
    y0: JxlImage,
    y1: JxlImage,
    a: Seq<u8>,
    b: Seq<u8>,
)
    requires
        same_loading_state(x0, y0),
        fed(x0, x1, a),
        same_loading_state(x1, x2),
        fed(x2, x3, b),
        fed(y0, y1, a + b),
    ensures
        same_loading_state(x3, y1),
{
    assert(x3.unconsumed() =~= y1.unconsumed());
}

/// Whether `after` is `before` with the frame being loaded having taken
/// `consumed` of the pending bytes: they count as consumed, no frame is
/// added, and the image ends exactly when `ends` says so. Only an image
/// that has not ended loads frames.
pub open spec fn frame_step(before: JxlImage, after: JxlImage, consumed: int, ends: bool) -> bool {
    &&& !before.spec_end_of_image()
    &&& 0 <= consumed <= before.unconsumed().len()
    &&& after.spec_buffer_offset() == before.spec_buffer_offset() + consumed
    &&& after.unconsumed() == before.unconsumed().skip(consumed)
    &&& after.spec_frame_offsets() == before.spec_frame_offsets()
    &&& after.spec_end_of_image() == ends
}

/// Whether a step from `before` to `after` leaves the end-of-image flag
/// as it was.
pub open spec fn end_kept(before: JxlImage, after: JxlImage) -> bool {
    after.spec_end_of_image() == before.spec_end_of_image()
}

/// One loading step, as the contracts describe it: bytes fed
/// (`feed_bytes`), a frame header's outcome reported (`header_parsed`),
/// or the frame being loaded fed (`frame_fed`).
pub open spec fn loading_step(before: JxlImage, after: JxlImage) -> bool {
    ||| exists|buf: Seq<u8>| fed(before, after, buf)
    ||| end_kept(before, after)
    ||| exists|consumed: int, ends: bool| frame_step(before, after, consumed, ends)
}

/// Whether step `i` of `states` is a loading step.
pub open spec fn step_at(states: Seq<JxlImage>, i: int) -> bool {
    loading_step(states[i], states[i + 1])
}

/// Whether step `i` of `states` is the frame being loaded completing as
/// the last frame.
pub open spec fn last_frame_ends_at(states: Seq<JxlImage>, i: int) -> bool {
    let before = states[i];
    let after = states[i + 1];
    exists|consumed: int| #[trigger] frame_step(before, after, consumed, true)
}

/// How the bytes are split into feeds does not matter while a frame is
/// loading either: starting with nothing pending, feeding `a`, which the
/// frame takes whole without completing, then feeding `b`, of which it
/// takes `consumed`, leaves the image as feeding `a` and `b` in one piece
/// and the frame taking `a` and those `consumed` bytes: the same bytes
/// pending from the same offset, the same frames, the same end flag.
pub proof fn law_feed_chunks_in_frame(
    x0: JxlImage,
    x1: JxlImage,
    x2: JxlImage,
    x3: JxlImage,
    x4: JxlImage,
    y0: JxlImage,
    y1: JxlImage,
    y2: JxlImage,
    a: Seq<u8>,
    b: Seq<u8>,
    consumed: int,
    ends: bool,
)
    requires
        same_loading_state(x0, y0),
        x0.unconsumed().len() == 0,
        fed(x0, x1, a),
        frame_step(x1, x2, a.len() as int, false),
        fed(x2, x3, b),
        frame_step(x3, x4, consumed, ends),
        fed(y0, y1, a + b),
        frame_step(y1, y2, a.len() + consumed, ends),
    ensures
        same_loading_state(x4, y2),
{
    assert(x2.unconsumed() =~= Seq::<u8>::empty());
    assert(x3.unconsumed() =~= b);
    assert(y1.unconsumed() =~= a + b);
    assert((a + b).skip(a.len() + consumed) =~= b.skip(consumed));
}

/// Along steps that keep the end flag, or feed bytes, or feed a frame, an
/// ended image stays ended.
proof fn lemma_end_kept_along(states: Seq<JxlImage>, i: int, j: int)
    requires
        forall|k: int| 0 <= k < states.len() - 1 ==> #[trigger] step_at(states, k),
        0 <= i <= j < states.len(),
        states[i].spec_end_of_image(),
    ensures
        states[j].spec_end_of_image(),
    decreases j - i,
{
    if i < j {
        lemma_end_kept_along(states, i, j - 1);
        assert(step_at(states, j - 1));
    }
}

/// An image that was not ended at first and is ended at step `j` was ended
/// by the last frame completing at some step before.
proof fn lemma_ended_by_last_frame(states: Seq<JxlImage>, j: int)
    requires
        forall|k: int| 0 <= k < states.len() - 1 ==> #[trigger] step_at(states, k),
        0 < j < states.len(),
        !states[0].spec_end_of_image(),
        states[j].spec_end_of_image(),
    ensures
        exists|i: int| 0 <= i < j && #[trigger] last_frame_ends_at(states, i),
    decreases j,
{
    assert(step_at(states, j - 1));
    if states[j - 1].spec_end_of_image() {
        lemma_ended_by_last_frame(states, j - 1);
        let i = choose|i: int| 0 <= i < j - 1 && #[trigger] last_frame_ends_at(states, i);
        assert(last_frame_ends_at(states, i));
    } else {
        let before = states[j - 1];
        let after = states[j];
        if exists|buf: Seq<u8>| fed(before, after, buf) {
            let buf = choose|buf: Seq<u8>| fed(before, after, buf);
            assert(fed(before, after, buf));
        } else if end_kept(before, after) {
        } else {
            let (c, e) = choose|consumed: int, ends: bool| frame_step(before, after, consumed, ends);
            assert(frame_step(states[j - 1], states[j], c, true));
            assert(last_frame_ends_at(states, j - 1));
        }
    }
}

/// Properties of the extra channels kept from the first `m` grids after
/// the colour grids.
proof fn lemma_kept_extra(ec: Seq<ExtraChannelInfo>, color: int, m: int, has_black: bool)
    requires
        0 <= m <= ec.len(),
        0 <= color,
        color + m <= usize::MAX,
    ensures
        forall|k: int|
            0 <= k < kept_extra(ec, color, m, has_black).len() ==> {
                let e = #[trigger] kept_extra(ec, color, m, has_black)[k];
                &&& color <= e.0 < color + m
                &&& e.1 == ec[e.0 - color].ty
                &&& e.2 == ec[e.0 - color].name@
                &&& e.1 != ExtraChannelType::Black || has_black
            },
        forall|k1: int, k2: int|
            0 <= k1 < k2 < kept_extra(ec, color, m, has_black).len() ==> kept_extra(ec, color, m, has_black)[k1].0
                < kept_extra(ec, color, m, has_black)[k2].0,
        forall|j: int|
            0 <= j < m && (#[trigger] ec[j].ty != ExtraChannelType::Black || has_black) ==> exists|k: int|
                0 <= k < kept_extra(ec, color, m, has_black).len() && #[trigger] kept_extra(ec, color, m, has_black)[k].0
                    == color + j,
    decreases m,
{
    if m > 0 {
        lemma_kept_extra(ec, color, m - 1, has_black);
        let prev = kept_extra(ec, color, m - 1, has_black);
        let cur = kept_extra(ec, color, m, has_black);
        let info = ec[m - 1];
        if info.ty != ExtraChannelType::Black || has_black {
            assert(cur == prev.push(((color + m - 1) as usize, info.ty, info.name@)));
            assert forall|j: int|
                0 <= j < m && (#[trigger] ec[j].ty != ExtraChannelType::Black || has_black) implies exists|k: int|
                    0 <= k < cur.len() && #[trigger] cur[k].0 == color + j by {
                if j == m - 1 {
                    assert(cur[prev.len() as int].0 == color + j);
                } else {
                    let k = choose|k: int| 0 <= k < prev.len() && #[trigger] prev[k].0 == color + j;
                    assert(cur[k].0 == color + j);
                }
            }
        } else {
            assert(cur == prev);
        }
    }
}

/// How a render's extra grids pair up with the header's extra channels:
/// extra grid `j` (the grid right after the colour grids being grid 0)
/// carries extra channel `j`, with its kind and name; the channels are kept
/// in order of their grids; and every one of them is kept except a black
/// channel when the output has no black.
pub proof fn law_extra_grids_pair_in_order(ec: Seq<ExtraChannelInfo>, color: int, m: int, has_black: bool)
    requires
        0 <= m <= ec.len(),
        0 <= color,
        color + m <= usize::MAX,
    ensures
        forall|k: int|
            0 <= k < kept_extra(ec, color, m, has_black).len() ==> {
                let e = #[trigger] kept_extra(ec, color, m, has_black)[k];
                &&& color <= e.0 < color + m
                &&& e.1 == ec[e.0 - color].ty
                &&& e.2 == ec[e.0 - color].name@
                &&& e.1 != ExtraChannelType::Black || has_black
            },
        forall|k1: int, k2: int|
            0 <= k1 < k2 < kept_extra(ec, color, m, has_black).len() ==> kept_extra(ec, color, m, has_black)[k1].0
                < kept_extra(ec, color, m, has_black)[k2].0,
        forall|j: int|
            0 <= j < m && (#[trigger] ec[j].ty != ExtraChannelType::Black || has_black) ==> exists|k: int|
                0 <= k < kept_extra(ec, color, m, has_black).len() && #[trigger] kept_extra(ec, color, m, has_black)[k].0
                    == color + j,
{
    lemma_kept_extra(ec, color, m, has_black);
}

/// The colour grids of a render follow the rendered pixel format, not the
/// image header: they are the format's channels other than alpha and
/// black, so one for grayscale output and three otherwise.
pub proof fn law_color_grids_follow_pixel_format(image: JxlImage)
    ensures
        ({
            let format = spec_pixel_format(image.spec_requested_encoding(), ec_kinds(image.spec_header().ec_info@));
            image.spec_color_grids() + (if format.spec_has_alpha() { 1int } else { 0int }) + (if format.spec_has_black() {
                1int
            } else {
                0int
            }) == format.spec_channels()
        }),
{
}

/// The properties of the spot colour positions among the first `m`
/// channels of `ec`.
proof fn lemma_spot_colours(ec: Seq<ExtraChannel>, m: int)
    requires
        0 <= m <= ec.len(),
        ec.len() <= usize::MAX,
    ensures
        forall|k: int|
            0 <= k < spot_colours(ec, m).len() ==> #[trigger] spot_colours(ec, m)[k] < m && ec[spot_colours(
                ec,
                m,
            )[k] as int].spec_ty() == ExtraChannelType::SpotColour,
        forall|k1: int, k2: int|
            0 <= k1 < k2 < spot_colours(ec, m).len() ==> spot_colours(ec, m)[k1] < spot_colours(ec, m)[k2],
        forall|i: int|
            0 <= i < m && #[trigger] ec[i].spec_ty() == ExtraChannelType::SpotColour ==> exists|k: int|
                0 <= k < spot_colours(ec, m).len() && #[trigger] spot_colours(ec, m)[k] == i,
    decreases m,
{
    if m > 0 {
        lemma_spot_colours(ec, m - 1);
        let prev = spot_colours(ec, m - 1);
        let cur = spot_colours(ec, m);
        let last = ec[m - 1];
        if last.spec_ty() == ExtraChannelType::SpotColour {
            assert(cur == prev.push((m - 1) as usize));
            assert forall|i: int|
                0 <= i < m && #[trigger] ec[i].spec_ty() == ExtraChannelType::SpotColour implies exists|k: int|
                    0 <= k < cur.len() && #[trigger] cur[k] == i by {
                if i == m - 1 {
                    assert(cur[prev.len() as int] == i);
                } else {
                    let k = choose|k: int| 0 <= k < prev.len() && #[trigger] prev[k] == i;
                    assert(cur[k] == i);
                }
            }
        } else {
            assert(cur == prev);
        }
    }
}

/// The spot colour channels that a render blends, when spot colours are
/// rendered, are the positions of the spot colour channels among its extra
/// channels: each listed position holds a spot colour channel, positions
/// are listed in increasing order, and every spot colour channel is
/// listed, whatever channels come before it.
pub proof fn law_spot_colours_are_the_spot_channels(ec: Seq<ExtraChannel>)
    requires
        ec.len() <= usize::MAX,
    ensures
        forall|k: int|
            0 <= k < spot_colours(ec, ec.len() as int).len() ==> #[trigger] spot_colours(ec, ec.len() as int)[k]
                < ec.len() && ec[spot_colours(ec, ec.len() as int)[k] as int].spec_ty() == ExtraChannelType::SpotColour,
        forall|k1: int, k2: int|
            0 <= k1 < k2 < spot_colours(ec, ec.len() as int).len() ==> spot_colours(ec, ec.len() as int)[k1]
                < spot_colours(ec, ec.len() as int)[k2],
        forall|i: int|
            0 <= i < ec.len() && #[trigger] ec[i].spec_ty() == ExtraChannelType::SpotColour ==> exists|k: int|
                0 <= k < spot_colours(ec, ec.len() as int).len() && #[trigger] spot_colours(ec, ec.len() as int)[k]
                    == i,
{
    lemma_spot_colours(ec, ec.len() as int);
}

/// Once the image has ended it stays ended, whatever loading steps follow,
/// and it ends only when the frame being loaded completes as the last
/// frame (`frame_fed`). Stated over any sequence of images in which each
/// comes from the one before by a loading step.
pub proof fn law_end_of_image_is_final(states: Seq<JxlImage>)
    requires
        forall|k: int| 0 <= k < states.len() - 1 ==> #[trigger] step_at(states, k),
    ensures
        forall|i: int, j: int|
            0 <= i <= j < states.len() && #[trigger] states[i].spec_end_of_image() ==> #[trigger] states[j].spec_end_of_image(),
        forall|j: int|
            0 < j < states.len() && !states[0].spec_end_of_image() && #[trigger] states[j].spec_end_of_image()
                ==> exists|i: int| 0 <= i < j && #[trigger] last_frame_ends_at(states, i),
{
    assert forall|i: int, j: int|
        0 <= i <= j < states.len() && #[trigger] states[i].spec_end_of_image() implies #[trigger] states[j].spec_end_of_image() by {
        lemma_end_kept_along(states, i, j);
    }
    assert forall|j: int|
        0 < j < states.len() && !states[0].spec_end_of_image() && #[trigger] states[j].spec_end_of_image() implies
        exists|i: int| 0 <= i < j && #[trigger] last_frame_ends_at(states, i) by {
        lemma_ended_by_last_frame(states, j);
    }
}

/// The result of loading and rendering the keyframe.
#[derive(Debug)]
pub enum RenderResult {
    /// The frame is rendered.
    Done(Render),
    /// More data is needed to fully render the frame.
    NeedMoreData,
    /// No more frames are present.
    NoMoreFrames,
}

/// The outcome of parsing the image header, the embedded colour profile
/// and the preview frame header, if any, from the buffered bytes.
#[derive(Debug)]
pub enum ImageHeaderRead {
    /// The headers took `header_bytes` bytes (padded to whole bytes); the
    /// preview frame, if any, takes `preview_frame_bytes` more.
    Parsed {
        header: ImageHeader,
        encoding: RenderedEncoding,
        header_bytes: usize,
        preview_frame_bytes: Option<usize>,
    },
    /// The bytes end inside the headers.
    NeedMoreData,
    /// The headers are invalid.
    Invalid,
}

/// What initialising from the codestream bytes `buffer`, given what
/// parsing the headers from them gave, results in: an error for invalid
/// headers; the same bytes back when the headers or the preview frame are
/// not complete; otherwise an image starting right after the headers (and
/// the skipped preview frame), with the bytes after them pending.
pub open spec fn init_outcome(
    r: Result<InitializeResult, LoadError>,
    buffer: Seq<u8>,
    read: ImageHeaderRead,
) -> bool {
    &&& match read {
        ImageHeaderRead::Invalid => r == Err::<InitializeResult, LoadError>(LoadError::InvalidImageHeader),
        ImageHeaderRead::NeedMoreData => r matches Ok(InitializeResult::NeedMoreData(u))
            && u.spec_buffer() == buffer,
        ImageHeaderRead::Parsed { header, encoding, header_bytes, preview_frame_bytes } => {
            let skip = match preview_frame_bytes {
                Some(x) => x as int,
                None => 0int,
            };
            if header_bytes + skip > buffer.len() {
                r matches Ok(InitializeResult::NeedMoreData(u)) && u.spec_buffer() == buffer
            } else {
                r matches Ok(InitializeResult::Initialized(image)) && {
                    &&& image.wf()
                    &&& image.spec_header() == header
                    &&& image.spec_requested_encoding() == encoding
                    &&& image.spec_render_spot_colour() == !header.grayscale
                    &&& !image.spec_end_of_image()
                    &&& image.spec_buffer_offset() == header_bytes + skip
                    &&& image.unconsumed() == buffer.skip(header_bytes + skip)
                    &&& image.spec_buffer() == buffer.skip(header_bytes + skip)
                    &&& image.spec_cursor() == 0
                    &&& image.spec_frame_offsets().len() == 0
                    &&& image.spec_pending() == if header_bytes + skip == buffer.len() {
                        FeedAction::Done
                    } else {
                        FeedAction::ParseHeader { start: 0 }
                    }
                }
            }
        },
    }
    &&& (r matches Ok(InitializeResult::Initialized(image)) ==> image.offsets_strict())
}

/// Initialising does not depend on how the bytes were split into feeds:
/// two uninitialized images fed the same bytes, one of them in two
/// chunks `a` and `c`, the other in one piece, initialise alike from the
/// same header read: to the same outcome, and when initialised, to images
/// with the same header, frames, end flag, offset and pending bytes.
pub proof fn law_try_init_ignores_chunking(
    r1: Result<InitializeResult, LoadError>,
    r2: Result<InitializeResult, LoadError>,
    start: Seq<u8>,
    a: Seq<u8>,
    c: Seq<u8>,
    read: ImageHeaderRead,
)
    requires
        init_outcome(r1, (start + a) + c, read),
        init_outcome(r2, start + (a + c), read),
    ensures
        r1 is Ok <==> r2 is Ok,
        r1 matches Err(e1) ==> r2 == Err::<InitializeResult, LoadError>(e1),
        r1 matches Ok(InitializeResult::NeedMoreData(u1)) ==> r2 matches Ok(InitializeResult::NeedMoreData(u2))
            && u1.spec_buffer() == u2.spec_buffer(),
        r1 matches Ok(InitializeResult::Initialized(x)) ==> r2 matches Ok(InitializeResult::Initialized(y))
            && same_loading_state(x, y) && x.spec_header() == y.spec_header() && x.spec_pending()
            == y.spec_pending(),
{
    assert((start + a) + c =~= start + (a + c));
    if let Ok(InitializeResult::Initialized(x)) = r1 {
        if let Ok(InitializeResult::Initialized(y)) = r2 {
            assert(x.spec_frame_offsets() =~= y.spec_frame_offsets());
        }
    }
}

/// Empty, uninitialized JPEG XL image: the codestream bytes fed so far.
#[derive(Debug)]
pub struct UninitializedJxlImage {
    buffer: Vec<u8>,
}

/// Initialization result from [`UninitializedJxlImage::try_init`].
#[derive(Debug)]
pub enum InitializeResult {
    /// The data was not enough. Feed more data into the returned image.
    NeedMoreData(UninitializedJxlImage),
    /// The image is successfully initialized.
    Initialized(JxlImage),
}

impl UninitializedJxlImage {
    /// The codestream bytes fed so far.
    pub closed spec fn spec_buffer(&self) -> Seq<u8> {
        self.buffer@
    }

    /// An image with no bytes yet.
    pub fn new() -> (r: UninitializedJxlImage)
        ensures
            r.spec_buffer().len() == 0,
    {
        UninitializedJxlImage { buffer: Vec::new() }
    }

    /// Feeds more codestream bytes.
    pub fn feed_bytes(&mut self, buf: &[u8])
        ensures
            final(self).spec_buffer() == old(self).spec_buffer() + buf@,
    {
        self.buffer.extend_from_slice(buf);
    }

    /// Feeds the bytes of one read from an input. A read that gives no
    /// bytes means the input ended before the headers were complete, which
    /// is an error.
    pub fn feed_read(&mut self, buf: &[u8]) -> (r: Result<(), LoadError>)
        ensures
            buf@.len() == 0 ==> r == Err::<(), LoadError>(LoadError::UnexpectedEof) && final(self).spec_buffer()
                == old(self).spec_buffer(),
            buf@.len() > 0 ==> r == Ok::<(), LoadError>(()) && final(self).spec_buffer() == old(
                self,
            ).spec_buffer() + buf@,
    {
        if buf.len() == 0 {
            return Err(LoadError::UnexpectedEof);
        }
        self.feed_bytes(buf);
        Ok(())
    }

    /// The codestream bytes fed so far, from which the headers are parsed.
    pub fn buffer(&self) -> (r: &Vec<u8>)
        ensures
            r@ == self.spec_buffer(),
    {
        &self.buffer
    }

    /// Try to initialize an image with the data fed into so far, given what
    /// parsing the headers from `buffer()` gave.
    ///
    /// # Returns
    /// - `Ok(InitializeResult::Initialized(_))` if the initialization was
    ///   successful: the image starts right after the headers (and the
    ///   preview frame, which is skipped), and the bytes after them are
    ///   pending for it;
    /// - `Ok(InitializeResult::NeedMoreData(_))` if the data was not enough,
    ///   the bytes kept; and
    /// - `Err(_)` if the headers are invalid.
    ///
    /// The bytes after the headers are left pending in the initialized
    /// image (its `pending_action`); a frame header among them that turns
    /// out invalid is reported by `header_parsed` when the caller feeds
    /// them on, and fails the initialization.
    pub fn try_init(self, read: ImageHeaderRead) -> (r: Result<InitializeResult, LoadError>)
        requires
            read matches ImageHeaderRead::Parsed { header_bytes, .. } ==> header_bytes <= self.spec_buffer().len(),
        ensures
            init_outcome(r, self.spec_buffer(), read),
    {
        match read {
            ImageHeaderRead::Invalid => Err(LoadError::InvalidImageHeader),
            ImageHeaderRead::NeedMoreData => Ok(InitializeResult::NeedMoreData(self)),
            ImageHeaderRead::Parsed { header, encoding, header_bytes, preview_frame_bytes } => {
                let skip_bytes: usize = match preview_frame_bytes {
                    Some(x) => {
                        if self.buffer.len() - header_bytes < x {
                            return Ok(InitializeResult::NeedMoreData(self));
                        }
                        x
                    },
                    None => 0,
                };
                let total: usize = self.buffer.len();
                let bytes_read: usize = header_bytes + skip_bytes;
                let rest = copy_tail(&self.buffer, bytes_read);
                assert(bytes_read + rest@.len() == total);
                let mut image = JxlImage::new(header, encoding, bytes_read);
                proof {
                    assert(image.unconsumed() =~= Seq::<u8>::empty());
                }
                image.feed_bytes(rest.as_slice(), false);
                proof {
                    assert(image.unconsumed() =~= self.buffer@.skip(bytes_read as int));
                }
                Ok(InitializeResult::Initialized(image))
            },
        }
    }
}

} // verus!

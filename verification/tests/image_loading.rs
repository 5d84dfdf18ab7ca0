use lib::{
    ChannelRef, ColourSpace, ExtraChannelInfo, ExtraChannelType, FeedAction, FrameHeaderRead,
    ImageHeader, ImageHeaderRead, InitializeResult, JxlImage, LoadError, PixelFormat,
    RenderedEncoding, UninitializedJxlImage,
};

fn header(grayscale: bool, ec: Vec<(ExtraChannelType, &str)>) -> ImageHeader {
    ImageHeader {
        width: 640,
        height: 480,
        orientation: 6,
        grayscale,
        ec_info: ec
            .into_iter()
            .map(|(ty, name)| ExtraChannelInfo { ty, name: name.to_string() })
            .collect(),
    }
}

fn rgb() -> RenderedEncoding {
    RenderedEncoding::Enum { colour_space: ColourSpace::Rgb }
}

#[test]
fn image_basics() {
    let mut image = JxlImage::new(header(false, vec![(ExtraChannelType::Alpha, "a")]), rgb(), 12);
    assert_eq!(image.width(), 480);
    assert_eq!(image.height(), 640);
    assert_eq!(image.image_header().ec_info.len(), 1);
    assert_eq!(image.pixel_format(), PixelFormat::Rgba);
    image.request_color_encoding(ColourSpace::Grey);
    assert_eq!(image.pixel_format(), PixelFormat::Graya);
    assert!(image.render_spot_colour());
    image.set_render_spot_colour(false);
    assert!(!image.render_spot_colour());
    assert!(!image.is_loading_done());
    assert_eq!(image.frame_offset(0), None);
    assert_eq!(image.pending_action(), FeedAction::Done);
}

#[test]
fn grayscale_image_keeps_spot_colour_off() {
    let mut image = JxlImage::new(header(true, vec![]), rgb(), 0);
    assert!(!image.render_spot_colour());
    image.set_render_spot_colour(true);
    assert!(!image.render_spot_colour());
}

#[test]
fn feed_frames_and_offsets() {
    let mut image = JxlImage::new(header(false, vec![]), rgb(), 100);
    assert_eq!(image.feed_bytes(&[], false), FeedAction::Done);
    // ten bytes: a 2-byte frame header, a frame that takes 3 bytes, then a
    // header cut short
    let action = image.feed_bytes(&[0, 1, 2, 3, 4, 5, 6, 7, 8, 9], false);
    assert_eq!(action, FeedAction::ParseHeader { start: 0 });
    let action = image
        .header_parsed(FrameHeaderRead::Parsed { frame_index: 0, header_bytes: 2 })
        .unwrap();
    assert_eq!(action, FeedAction::FeedFrame { start: 2 });
    assert_eq!(image.frame_offset(0), Some(100));
    let action = image.frame_fed(3, true, false);
    assert_eq!(action, FeedAction::ParseHeader { start: 5 });
    let action = image.header_parsed(FrameHeaderRead::NeedMoreData).unwrap();
    assert_eq!(action, FeedAction::Done);
    assert_eq!(image.buffer(), &vec![5, 6, 7, 8, 9]);
    // more bytes: the header completes (4 bytes) and the last frame takes 3
    let action = image.feed_bytes(&[10, 11, 12, 13], false);
    assert_eq!(action, FeedAction::ParseHeader { start: 0 });
    let action = image
        .header_parsed(FrameHeaderRead::Parsed { frame_index: 1, header_bytes: 4 })
        .unwrap();
    assert_eq!(action, FeedAction::FeedFrame { start: 4 });
    assert_eq!(image.frame_offset(1), Some(105));
    let action = image.frame_fed(3, true, true);
    assert_eq!(action, FeedAction::Done);
    assert!(image.is_loading_done());
    assert_eq!(image.buffer(), &vec![12, 13]);
    // after the end, bytes are only kept
    assert_eq!(image.feed_bytes(&[14], false), FeedAction::Done);
    assert_eq!(image.buffer(), &vec![12, 13, 14]);
    assert_eq!(image.frame_offset(2), None);
}

#[test]
fn feed_loading_frame_first() {
    let mut image = JxlImage::new(header(false, vec![]), rgb(), 0);
    let action = image.feed_bytes(&[1, 2, 3], true);
    assert_eq!(action, FeedAction::FeedFrame { start: 0 });
    // the frame takes everything and is not done yet
    assert_eq!(image.frame_fed(3, false, false), FeedAction::Done);
    assert_eq!(image.buffer(), &Vec::<u8>::new());
    let action = image.feed_bytes(&[4, 5, 6], true);
    assert_eq!(action, FeedAction::FeedFrame { start: 0 });
    assert_eq!(image.frame_fed(1, true, false), FeedAction::ParseHeader { start: 0 });
    assert_eq!(image.buffer(), &vec![5, 6]);
    assert_eq!(
        image.header_parsed(FrameHeaderRead::Invalid),
        Err(LoadError::InvalidFrameHeader)
    );
    assert_eq!(image.pending_action(), FeedAction::Done);
}

#[test]
fn render_assembly() {
    let image = JxlImage::new(
        header(
            false,
            vec![
                (ExtraChannelType::Black, "k"),
                (ExtraChannelType::SpotColour, "spot"),
                (ExtraChannelType::Alpha, "a"),
            ],
        ),
        rgb(),
        0,
    );
    // RGB output: three colour grids, black is dropped
    let (color, extra) = image.process_render(6);
    assert_eq!(color, 3);
    let got: Vec<(usize, ExtraChannelType)> = extra.iter().map(|e| (e.grid(), e.ty())).collect();
    assert_eq!(got, vec![(4, ExtraChannelType::SpotColour), (5, ExtraChannelType::Alpha)]);
    assert_eq!(image.spot_colour_channels(&extra), vec![0]);
    // fewer grids than extra channels: pair up as far as both go
    let (_, extra) = image.process_render(5);
    assert_eq!(extra.len(), 1);
    assert_eq!(extra[0].name(), "spot");
    let render = image.assemble_render(7, "f".to_string(), 3, 6, 640, 480);
    assert_eq!(render.keyframe_index(), 7);
    assert_eq!(render.orientation(), 6);
    assert_eq!(render.color_channels(), 3);
    assert_eq!(render.image(), vec![ChannelRef::Color(0), ChannelRef::Color(1), ChannelRef::Color(2), ChannelRef::Extra(1)]);
}

#[test]
fn render_keeps_black_for_cmyk() {
    let mut profile = vec![0u8; 0x20];
    profile[0x10..0x14].copy_from_slice(b"CMYK");
    let image = JxlImage::new(
        header(false, vec![(ExtraChannelType::Black, "k")]),
        RenderedEncoding::IccProfile(profile),
        0,
    );
    assert_eq!(image.pixel_format(), PixelFormat::Cmyk);
    let (color, extra) = image.process_render(4);
    assert_eq!(color, 3);
    assert_eq!(extra.len(), 1);
    assert!(extra[0].is_black());
    assert_eq!(extra[0].grid(), 3);
}

#[test]
fn spot_colours_not_rendered_when_off() {
    let mut image = JxlImage::new(header(false, vec![(ExtraChannelType::SpotColour, "s")]), rgb(), 0);
    let (_, extra) = image.process_render(4);
    assert_eq!(image.spot_colour_channels(&extra), vec![0]);
    image.set_render_spot_colour(false);
    assert_eq!(image.spot_colour_channels(&extra), Vec::<usize>::new());
}

fn parsed(header_bytes: usize, preview: Option<usize>) -> ImageHeaderRead {
    ImageHeaderRead::Parsed {
        header: header(false, vec![]),
        encoding: rgb(),
        header_bytes,
        preview_frame_bytes: preview,
    }
}

#[test]
fn try_init_outcomes() {
    let mut uninit = UninitializedJxlImage::new();
    uninit.feed_bytes(&[1, 2, 3, 4, 5, 6]);
    assert_eq!(uninit.buffer(), &vec![1, 2, 3, 4, 5, 6]);
    let uninit = match uninit.try_init(ImageHeaderRead::NeedMoreData).unwrap() {
        InitializeResult::NeedMoreData(u) => u,
        InitializeResult::Initialized(_) => panic!("initialized too early"),
    };
    // the preview frame does not fit yet
    let mut uninit = match uninit.try_init(parsed(2, Some(5))).unwrap() {
        InitializeResult::NeedMoreData(u) => u,
        InitializeResult::Initialized(_) => panic!("preview not complete"),
    };
    uninit.feed_bytes(&[7, 8]);
    let image = match uninit.try_init(parsed(2, Some(5))).unwrap() {
        InitializeResult::Initialized(image) => image,
        InitializeResult::NeedMoreData(_) => panic!("preview is complete"),
    };
    assert_eq!(image.buffer(), &vec![8]);
    assert_eq!(image.pending_action(), FeedAction::ParseHeader { start: 0 });
    assert!(image.render_spot_colour());

    let mut uninit = UninitializedJxlImage::new();
    uninit.feed_bytes(&[1, 2, 3]);
    let image = match uninit.try_init(parsed(3, None)).unwrap() {
        InitializeResult::Initialized(image) => image,
        InitializeResult::NeedMoreData(_) => panic!("headers are complete"),
    };
    assert_eq!(image.pending_action(), FeedAction::Done);

    let uninit = UninitializedJxlImage::new();
    assert!(matches!(uninit.try_init(ImageHeaderRead::Invalid), Err(LoadError::InvalidImageHeader)));
}

#[test]
fn reading_input_until_the_end() {
    let mut uninit = UninitializedJxlImage::new();
    assert_eq!(uninit.feed_read(&[1, 2]), Ok(()));
    assert_eq!(uninit.feed_read(&[]), Err(LoadError::UnexpectedEof));
    assert_eq!(uninit.buffer(), &vec![1, 2]);
    let mut image = JxlImage::new(header(false, vec![]), rgb(), 0);
    assert!(image.keeps_reading(4096));
    assert!(!image.keeps_reading(0));
    image.feed_bytes(&[0, 1], true);
    image.frame_fed(2, true, true);
    assert!(image.is_loading_done());
    assert!(!image.keeps_reading(10));
}

#[test]
fn frame_offsets_strictly_increase() {
    let mut image = JxlImage::new(header(false, vec![]), rgb(), 7);
    image.feed_bytes(&[0; 12], false);
    for frame_index in 0..3 {
        image.header_parsed(FrameHeaderRead::Parsed { frame_index, header_bytes: 1 }).unwrap();
        image.frame_fed(2, true, false);
    }
    assert_eq!(image.frame_offset(0), Some(7));
    assert_eq!(image.frame_offset(1), Some(10));
    assert_eq!(image.frame_offset(2), Some(13));
    assert_eq!(image.frame_offset(3), None);
}

#[test]
fn chunked_init_matches_whole() {
    let mut chunked = UninitializedJxlImage::new();
    chunked.feed_bytes(&[1, 2, 3]);
    chunked.feed_bytes(&[4, 5]);
    let mut whole = UninitializedJxlImage::new();
    whole.feed_bytes(&[1, 2, 3, 4, 5]);
    let a = match chunked.try_init(parsed(2, None)).unwrap() {
        InitializeResult::Initialized(image) => image,
        _ => panic!("headers complete"),
    };
    let b = match whole.try_init(parsed(2, None)).unwrap() {
        InitializeResult::Initialized(image) => image,
        _ => panic!("headers complete"),
    };
    assert_eq!(a.buffer(), b.buffer());
    assert_eq!(a.pending_action(), b.pending_action());
    assert_eq!(a.is_loading_done(), b.is_loading_done());
}

#[test]
fn chunked_frame_feed_matches_whole() {
    // the frame takes the first chunk whole, then two bytes of the second
    let mut chunked = JxlImage::new(header(false, vec![]), rgb(), 0);
    assert_eq!(chunked.feed_bytes(&[1, 2, 3], true), FeedAction::FeedFrame { start: 0 });
    assert_eq!(chunked.frame_fed(3, false, false), FeedAction::Done);
    assert_eq!(chunked.feed_bytes(&[4, 5, 6], true), FeedAction::FeedFrame { start: 0 });
    let a = chunked.frame_fed(2, true, false);
    // the same bytes in one piece, the frame taking the same five bytes
    let mut whole = JxlImage::new(header(false, vec![]), rgb(), 0);
    assert_eq!(whole.feed_bytes(&[1, 2, 3, 4, 5, 6], true), FeedAction::FeedFrame { start: 0 });
    let b = whole.frame_fed(5, true, false);
    assert_eq!(a, FeedAction::ParseHeader { start: 0 });
    assert_eq!(a, b);
    assert_eq!(chunked.buffer(), &vec![6]);
    assert_eq!(chunked.buffer(), whole.buffer());
    assert_eq!(chunked.is_loading_done(), whole.is_loading_done());
    // the next frame header is then recorded at the same offset
    chunked.header_parsed(FrameHeaderRead::Parsed { frame_index: 0, header_bytes: 1 }).unwrap();
    whole.header_parsed(FrameHeaderRead::Parsed { frame_index: 0, header_bytes: 1 }).unwrap();
    assert_eq!(chunked.frame_offset(0), Some(5));
    assert_eq!(chunked.frame_offset(0), whole.frame_offset(0));
}

#[test]
fn ended_image_stays_ended() {
    let mut image = JxlImage::new(header(false, vec![]), rgb(), 0);
    assert!(!image.is_loading_done());
    image.feed_bytes(&[1, 2, 3, 4], false);
    image.header_parsed(FrameHeaderRead::Parsed { frame_index: 0, header_bytes: 1 }).unwrap();
    assert!(!image.is_loading_done());
    // the frame completes but is not the last one
    assert_eq!(image.frame_fed(1, true, false), FeedAction::ParseHeader { start: 2 });
    assert!(!image.is_loading_done());
    image.header_parsed(FrameHeaderRead::Parsed { frame_index: 1, header_bytes: 1 }).unwrap();
    assert_eq!(image.frame_fed(1, true, true), FeedAction::Done);
    assert!(image.is_loading_done());
    assert_eq!(image.feed_bytes(&[5, 6], false), FeedAction::Done);
    assert!(image.is_loading_done());
    assert_eq!(image.feed_bytes(&[], false), FeedAction::Done);
    assert!(image.is_loading_done());
}

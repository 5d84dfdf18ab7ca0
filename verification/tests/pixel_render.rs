use lib::{
    pixel_format_of, ChannelRef, ColourSpace, CropInfo, ExtraChannel, ExtraChannelType, ImageStream,
    PixelFormat, Region, Render, RenderedEncoding, SamplePosition,
};

#[test]
fn pixel_format_channels() {
    assert_eq!(PixelFormat::Gray.channels(), 1);
    assert_eq!(PixelFormat::Graya.channels(), 2);
    assert_eq!(PixelFormat::Rgb.channels(), 3);
    assert_eq!(PixelFormat::Rgba.channels(), 4);
    assert_eq!(PixelFormat::Cmyk.channels(), 4);
    assert_eq!(PixelFormat::Cmyka.channels(), 5);
    assert!(PixelFormat::Graya.is_grayscale());
    assert!(!PixelFormat::Rgb.is_grayscale());
    assert!(PixelFormat::Cmyka.has_alpha());
    assert!(!PixelFormat::Cmyk.has_alpha());
    assert!(PixelFormat::Cmyk.has_black());
    assert!(!PixelFormat::Rgba.has_black());
}

fn icc_with_space(tag: &[u8; 4]) -> Vec<u8> {
    let mut profile = vec![0u8; 0x80];
    profile[0x10..0x14].copy_from_slice(tag);
    profile
}

#[test]
fn pixel_format_from_encoding() {
    let grey = RenderedEncoding::Enum { colour_space: ColourSpace::Grey };
    let rgb = RenderedEncoding::Enum { colour_space: ColourSpace::Rgb };
    assert_eq!(pixel_format_of(&grey, &[]), PixelFormat::Gray);
    assert_eq!(pixel_format_of(&grey, &[ExtraChannelType::Depth, ExtraChannelType::Alpha]), PixelFormat::Graya);
    assert_eq!(pixel_format_of(&rgb, &[ExtraChannelType::Black]), PixelFormat::Rgb);
    assert_eq!(pixel_format_of(&rgb, &[ExtraChannelType::Alpha]), PixelFormat::Rgba);
    let gray_icc = RenderedEncoding::IccProfile(icc_with_space(b"GRAY"));
    assert_eq!(pixel_format_of(&gray_icc, &[]), PixelFormat::Gray);
    let cmyk_icc = RenderedEncoding::IccProfile(icc_with_space(b"CMYK"));
    assert_eq!(pixel_format_of(&cmyk_icc, &[]), PixelFormat::Cmyk);
    assert_eq!(pixel_format_of(&cmyk_icc, &[ExtraChannelType::Alpha]), PixelFormat::Cmyka);
    let rgb_icc = RenderedEncoding::IccProfile(icc_with_space(b"RGB "));
    assert_eq!(pixel_format_of(&rgb_icc, &[]), PixelFormat::Rgb);
    // a profile shorter than its header counts as RGB
    let short = RenderedEncoding::IccProfile(b"0123456789abcdefGRA".to_vec());
    assert_eq!(pixel_format_of(&short, &[]), PixelFormat::Rgb);
}

#[test]
fn crop_info_to_region() {
    let crop = CropInfo { width: 10, height: 20, left: 3, top: u32::MAX };
    let region: Region = crop.into();
    assert_eq!(region, Region { left: 3, top: -1, width: 10, height: 20 });
    let region = Region::from(CropInfo::default());
    assert_eq!(region, Region { left: 0, top: 0, width: 0, height: 0 });
}

#[test]
fn extra_channel_kinds() {
    let ec = ExtraChannel::new(ExtraChannelType::SpotColour, "spot".to_string(), 4);
    assert!(ec.is_spot_colour());
    assert!(!ec.is_alpha());
    assert!(!ec.is_black());
    assert_eq!(ec.name(), "spot");
    assert_eq!(ec.grid(), 4);
    assert_eq!(ec.ty(), ExtraChannelType::SpotColour);
}

fn sample_render(orientation: u32) -> Render {
    let extra = vec![
        ExtraChannel::new(ExtraChannelType::Depth, "depth".to_string(), 3),
        ExtraChannel::new(ExtraChannelType::Alpha, "alpha".to_string(), 4),
        ExtraChannel::new(ExtraChannelType::Black, "black".to_string(), 5),
        ExtraChannel::new(ExtraChannelType::Alpha, "alpha2".to_string(), 6),
    ];
    Render::new(2, "frame".to_string(), 40, orientation, 3, 2, 3, extra)
}

#[test]
fn render_channel_selection() {
    let render = sample_render(1);
    assert_eq!(render.keyframe_index(), 2);
    assert_eq!(render.name(), "frame");
    assert_eq!(render.duration(), 40);
    assert_eq!(render.orientation(), 1);
    assert_eq!(render.color_channels(), 3);
    assert_eq!(render.extra_channels().len(), 4);
    assert_eq!(
        render.image(),
        vec![
            ChannelRef::Color(0),
            ChannelRef::Color(1),
            ChannelRef::Color(2),
            ChannelRef::Extra(2),
            ChannelRef::Extra(1),
        ]
    );
    assert_eq!(render.image_planar(), render.image_all_channels());
    assert_eq!(
        render.image_all_channels(),
        vec![
            ChannelRef::Color(0),
            ChannelRef::Color(1),
            ChannelRef::Color(2),
            ChannelRef::Extra(0),
            ChannelRef::Extra(1),
            ChannelRef::Extra(2),
            ChannelRef::Extra(3),
        ]
    );
}

fn pos(channel: ChannelRef, x: u32, y: u32) -> SamplePosition {
    SamplePosition { channel, x, y }
}

#[test]
fn stream_identity_orientation() {
    let mut stream = ImageStream::new(1, 2, 2, vec![ChannelRef::Color(0), ChannelRef::Extra(1)]);
    assert_eq!(stream.width(), 2);
    assert_eq!(stream.height(), 2);
    assert_eq!(stream.channels(), 2);
    let filler = pos(ChannelRef::Color(9), 9, 9);
    let mut buf = vec![filler; 3];
    assert_eq!(stream.write_to_buffer(&mut buf), 3);
    assert_eq!(
        buf,
        vec![pos(ChannelRef::Color(0), 0, 0), pos(ChannelRef::Extra(1), 0, 0), pos(ChannelRef::Color(0), 1, 0)]
    );
    let mut buf = vec![filler; 10];
    assert_eq!(stream.write_to_buffer(&mut buf), 5);
    assert_eq!(
        buf[..6].to_vec(),
        vec![
            pos(ChannelRef::Extra(1), 1, 0),
            pos(ChannelRef::Color(0), 0, 1),
            pos(ChannelRef::Extra(1), 0, 1),
            pos(ChannelRef::Color(0), 1, 1),
            pos(ChannelRef::Extra(1), 1, 1),
            filler,
        ]
    );
    assert_eq!(stream.write_to_buffer(&mut buf), 0);
}

#[test]
fn stream_orientations() {
    // oriented 3 wide, 2 high
    let expected: [[(u32, u32); 6]; 8] = [
        [(0, 0), (1, 0), (2, 0), (0, 1), (1, 1), (2, 1)],
        [(2, 0), (1, 0), (0, 0), (2, 1), (1, 1), (0, 1)],
        [(2, 1), (1, 1), (0, 1), (2, 0), (1, 0), (0, 0)],
        [(0, 1), (1, 1), (2, 1), (0, 0), (1, 0), (2, 0)],
        [(0, 0), (0, 1), (0, 2), (1, 0), (1, 1), (1, 2)],
        [(0, 2), (0, 1), (0, 0), (1, 2), (1, 1), (1, 0)],
        [(1, 2), (1, 1), (1, 0), (0, 2), (0, 1), (0, 0)],
        [(1, 0), (1, 1), (1, 2), (0, 0), (0, 1), (0, 2)],
    ];
    for orientation in 1..=8u32 {
        let mut stream = ImageStream::new(orientation, 3, 2, vec![ChannelRef::Color(0)]);
        let mut buf = vec![pos(ChannelRef::Color(9), 9, 9); 6];
        assert_eq!(stream.write_to_buffer(&mut buf), 6);
        let got: Vec<(u32, u32)> = buf.iter().map(|p| (p.x, p.y)).collect();
        assert_eq!(got, expected[(orientation - 1) as usize].to_vec(), "orientation {}", orientation);
        assert_eq!(stream.to_original_coord(0, 0), expected[(orientation - 1) as usize][0]);
        // every pixel of the 3 by 2 image (2 by 3 when transposed) once
        let (uw, uh) = if orientation >= 5 { (2, 3) } else { (3, 2) };
        let mut sorted = got.clone();
        sorted.sort();
        sorted.dedup();
        assert_eq!(sorted.len(), 6);
        assert!(got.iter().all(|&(x, y)| x < uw && y < uh));
    }
}

#[test]
fn render_stream_transposes() {
    let render = sample_render(6);
    let mut stream = render.stream();
    assert_eq!(stream.width(), 2);
    assert_eq!(stream.height(), 3);
    assert_eq!(stream.channels(), 5);
    let mut buf = vec![pos(ChannelRef::Color(9), 9, 9); 100];
    assert_eq!(stream.write_to_buffer(&mut buf), 30);
    // orientation 6, first pixel comes from the bottom-left of the grid
    assert_eq!(buf[0], pos(ChannelRef::Color(0), 0, 1));
    assert_eq!(buf[4], pos(ChannelRef::Extra(1), 0, 1));
}

#[test]
fn empty_streams() {
    let mut no_channels = ImageStream::new(1, 4, 4, vec![]);
    let mut buf = vec![pos(ChannelRef::Color(0), 0, 0); 4];
    assert_eq!(no_channels.write_to_buffer(&mut buf), 0);
    let mut no_width = ImageStream::new(3, 0, 4, vec![ChannelRef::Color(0)]);
    assert_eq!(no_width.write_to_buffer(&mut buf), 0);
    let mut no_buffer = ImageStream::new(1, 1, 1, vec![ChannelRef::Color(0)]);
    assert_eq!(no_buffer.write_to_buffer(&mut Vec::new()), 0);
    assert_eq!(no_buffer.write_to_buffer(&mut buf), 1);
}

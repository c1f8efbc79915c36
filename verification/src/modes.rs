//! The supported video and depth frame modes (resolution, format, buffer
//! size, framerate) and their lookup.

use vstd::prelude::*;

use crate::{DepthFormat, FrameMode, Resolution, VideoFormat};

verus! {

/// Number of entries of the video mode table.
pub const NUM_VIDEO_MODE_ENTRIES: usize = 12usize;

/// Number of entries of the depth mode table.
pub const NUM_DEPTH_MODE_ENTRIES: usize = 11usize;

/// All supported video modes, in table order.
pub open spec fn video_modes() -> Seq<FrameMode> {
    seq![
        FrameMode { resolution: Resolution::High, video_format: Some(VideoFormat::Rgb), depth_format: None, bytes: 3932160, width: 1280, height: 1024, data_bits_per_pixel: 24, padding_bits_per_pixel: 0, framerate: 10, is_valid: true },
        FrameMode { resolution: Resolution::Medium, video_format: Some(VideoFormat::Rgb), depth_format: None, bytes: 921600, width: 640, height: 480, data_bits_per_pixel: 24, padding_bits_per_pixel: 0, framerate: 30, is_valid: true },
        FrameMode { resolution: Resolution::High, video_format: Some(VideoFormat::Bayer), depth_format: None, bytes: 1310720, width: 1280, height: 1024, data_bits_per_pixel: 8, padding_bits_per_pixel: 0, framerate: 10, is_valid: true },
        FrameMode { resolution: Resolution::Medium, video_format: Some(VideoFormat::Bayer), depth_format: None, bytes: 307200, width: 640, height: 480, data_bits_per_pixel: 8, padding_bits_per_pixel: 0, framerate: 30, is_valid: true },
        FrameMode { resolution: Resolution::High, video_format: Some(VideoFormat::Ir8Bit), depth_format: None, bytes: 1310720, width: 1280, height: 1024, data_bits_per_pixel: 8, padding_bits_per_pixel: 0, framerate: 10, is_valid: true },
        FrameMode { resolution: Resolution::Medium, video_format: Some(VideoFormat::Ir8Bit), depth_format: None, bytes: 312320, width: 640, height: 488, data_bits_per_pixel: 8, padding_bits_per_pixel: 0, framerate: 30, is_valid: true },
        FrameMode { resolution: Resolution::High, video_format: Some(VideoFormat::Ir10Bit), depth_format: None, bytes: 2621440, width: 1280, height: 1024, data_bits_per_pixel: 10, padding_bits_per_pixel: 6, framerate: 10, is_valid: true },
        FrameMode { resolution: Resolution::Medium, video_format: Some(VideoFormat::Ir10Bit), depth_format: None, bytes: 624640, width: 640, height: 488, data_bits_per_pixel: 10, padding_bits_per_pixel: 6, framerate: 30, is_valid: true },
        FrameMode { resolution: Resolution::High, video_format: Some(VideoFormat::Ir10BitPacked), depth_format: None, bytes: 1638400, width: 1280, height: 1024, data_bits_per_pixel: 10, padding_bits_per_pixel: 0, framerate: 10, is_valid: true },
        FrameMode { resolution: Resolution::Medium, video_format: Some(VideoFormat::Ir10BitPacked), depth_format: None, bytes: 390400, width: 640, height: 488, data_bits_per_pixel: 10, padding_bits_per_pixel: 0, framerate: 30, is_valid: true },
        FrameMode { resolution: Resolution::Medium, video_format: Some(VideoFormat::YuvRgb), depth_format: None, bytes: 921600, width: 640, height: 480, data_bits_per_pixel: 24, padding_bits_per_pixel: 0, framerate: 15, is_valid: true },
        FrameMode { resolution: Resolution::Medium, video_format: Some(VideoFormat::YuvRaw), depth_format: None, bytes: 614400, width: 640, height: 480, data_bits_per_pixel: 16, padding_bits_per_pixel: 0, framerate: 15, is_valid: true },
    ]
}

/// All depth modes, in table order.
pub open spec fn depth_modes() -> Seq<FrameMode> {
    seq![
        FrameMode { resolution: Resolution::Medium, video_format: None, depth_format: Some(DepthFormat::Bit11), bytes: 614400, width: 640, height: 480, data_bits_per_pixel: 11, padding_bits_per_pixel: 5, framerate: 30, is_valid: true },
        FrameMode { resolution: Resolution::Medium, video_format: None, depth_format: Some(DepthFormat::Bit10), bytes: 614400, width: 640, height: 480, data_bits_per_pixel: 10, padding_bits_per_pixel: 6, framerate: 30, is_valid: true },
        FrameMode { resolution: Resolution::Medium, video_format: None, depth_format: Some(DepthFormat::Bit11Packed), bytes: 422400, width: 640, height: 480, data_bits_per_pixel: 11, padding_bits_per_pixel: 0, framerate: 30, is_valid: true },
        FrameMode { resolution: Resolution::Medium, video_format: None, depth_format: Some(DepthFormat::Bit10Packed), bytes: 384000, width: 640, height: 480, data_bits_per_pixel: 10, padding_bits_per_pixel: 0, framerate: 30, is_valid: true },
        FrameMode { resolution: Resolution::Medium, video_format: None, depth_format: Some(DepthFormat::Registered), bytes: 614400, width: 640, height: 480, data_bits_per_pixel: 16, padding_bits_per_pixel: 0, framerate: 30, is_valid: true },
        FrameMode { resolution: Resolution::Medium, video_format: None, depth_format: Some(DepthFormat::Mm), bytes: 614400, width: 640, height: 480, data_bits_per_pixel: 16, padding_bits_per_pixel: 0, framerate: 30, is_valid: true },
        FrameMode { resolution: Resolution::High, video_format: None, depth_format: Some(DepthFormat::Bit11), bytes: 0, width: 0, height: 0, data_bits_per_pixel: 0, padding_bits_per_pixel: 0, framerate: 0, is_valid: false },
        FrameMode { resolution: Resolution::High, video_format: None, depth_format: Some(DepthFormat::Bit10), bytes: 0, width: 0, height: 0, data_bits_per_pixel: 0, padding_bits_per_pixel: 0, framerate: 0, is_valid: false },
        FrameMode { resolution: Resolution::High, video_format: None, depth_format: Some(DepthFormat::Bit11Packed), bytes: 0, width: 0, height: 0, data_bits_per_pixel: 0, padding_bits_per_pixel: 0, framerate: 0, is_valid: false },
        FrameMode { resolution: Resolution::High, video_format: None, depth_format: Some(DepthFormat::Bit10Packed), bytes: 0, width: 0, height: 0, data_bits_per_pixel: 0, padding_bits_per_pixel: 0, framerate: 0, is_valid: false },
        FrameMode { resolution: Resolution::High, video_format: None, depth_format: Some(DepthFormat::Registered), bytes: 0, width: 0, height: 0, data_bits_per_pixel: 0, padding_bits_per_pixel: 0, framerate: 0, is_valid: false },
    ]
}

/// The video mode at position `index` of the table.
pub fn video_mode_entry(index: usize) -> (r: FrameMode)
    requires
        index < NUM_VIDEO_MODE_ENTRIES,
    ensures
        r == video_modes()[index as int],
{
    match index {
        0 => FrameMode { resolution: Resolution::High, video_format: Some(VideoFormat::Rgb), depth_format: None, bytes: 3932160, width: 1280, height: 1024, data_bits_per_pixel: 24, padding_bits_per_pixel: 0, framerate: 10, is_valid: true },
        1 => FrameMode { resolution: Resolution::Medium, video_format: Some(VideoFormat::Rgb), depth_format: None, bytes: 921600, width: 640, height: 480, data_bits_per_pixel: 24, padding_bits_per_pixel: 0, framerate: 30, is_valid: true },
        2 => FrameMode { resolution: Resolution::High, video_format: Some(VideoFormat::Bayer), depth_format: None, bytes: 1310720, width: 1280, height: 1024, data_bits_per_pixel: 8, padding_bits_per_pixel: 0, framerate: 10, is_valid: true },
        3 => FrameMode { resolution: Resolution::Medium, video_format: Some(VideoFormat::Bayer), depth_format: None, bytes: 307200, width: 640, height: 480, data_bits_per_pixel: 8, padding_bits_per_pixel: 0, framerate: 30, is_valid: true },
        4 => FrameMode { resolution: Resolution::High, video_format: Some(VideoFormat::Ir8Bit), depth_format: None, bytes: 1310720, width: 1280, height: 1024, data_bits_per_pixel: 8, padding_bits_per_pixel: 0, framerate: 10, is_valid: true },
        5 => FrameMode { resolution: Resolution::Medium, video_format: Some(VideoFormat::Ir8Bit), depth_format: None, bytes: 312320, width: 640, height: 488, data_bits_per_pixel: 8, padding_bits_per_pixel: 0, framerate: 30, is_valid: true },
        6 => FrameMode { resolution: Resolution::High, video_format: Some(VideoFormat::Ir10Bit), depth_format: None, bytes: 2621440, width: 1280, height: 1024, data_bits_per_pixel: 10, padding_bits_per_pixel: 6, framerate: 10, is_valid: true },
        7 => FrameMode { resolution: Resolution::Medium, video_format: Some(VideoFormat::Ir10Bit), depth_format: None, bytes: 624640, width: 640, height: 488, data_bits_per_pixel: 10, padding_bits_per_pixel: 6, framerate: 30, is_valid: true },
        8 => FrameMode { resolution: Resolution::High, video_format: Some(VideoFormat::Ir10BitPacked), depth_format: None, bytes: 1638400, width: 1280, height: 1024, data_bits_per_pixel: 10, padding_bits_per_pixel: 0, framerate: 10, is_valid: true },
        9 => FrameMode { resolution: Resolution::Medium, video_format: Some(VideoFormat::Ir10BitPacked), depth_format: None, bytes: 390400, width: 640, height: 488, data_bits_per_pixel: 10, padding_bits_per_pixel: 0, framerate: 30, is_valid: true },
        10 => FrameMode { resolution: Resolution::Medium, video_format: Some(VideoFormat::YuvRgb), depth_format: None, bytes: 921600, width: 640, height: 480, data_bits_per_pixel: 24, padding_bits_per_pixel: 0, framerate: 15, is_valid: true },
        _ => FrameMode { resolution: Resolution::Medium, video_format: Some(VideoFormat::YuvRaw), depth_format: None, bytes: 614400, width: 640, height: 480, data_bits_per_pixel: 16, padding_bits_per_pixel: 0, framerate: 15, is_valid: true },
    }
}

/// The depth mode at position `index` of the table.
pub fn depth_mode_entry(index: usize) -> (r: FrameMode)
    requires
        index < NUM_DEPTH_MODE_ENTRIES,
    ensures
        r == depth_modes()[index as int],
{
    match index {
        0 => FrameMode { resolution: Resolution::Medium, video_format: None, depth_format: Some(DepthFormat::Bit11), bytes: 614400, width: 640, height: 480, data_bits_per_pixel: 11, padding_bits_per_pixel: 5, framerate: 30, is_valid: true },
        1 => FrameMode { resolution: Resolution::Medium, video_format: None, depth_format: Some(DepthFormat::Bit10), bytes: 614400, width: 640, height: 480, data_bits_per_pixel: 10, padding_bits_per_pixel: 6, framerate: 30, is_valid: true },
        2 => FrameMode { resolution: Resolution::Medium, video_format: None, depth_format: Some(DepthFormat::Bit11Packed), bytes: 422400, width: 640, height: 480, data_bits_per_pixel: 11, padding_bits_per_pixel: 0, framerate: 30, is_valid: true },
        3 => FrameMode { resolution: Resolution::Medium, video_format: None, depth_format: Some(DepthFormat::Bit10Packed), bytes: 384000, width: 640, height: 480, data_bits_per_pixel: 10, padding_bits_per_pixel: 0, framerate: 30, is_valid: true },
        4 => FrameMode { resolution: Resolution::Medium, video_format: None, depth_format: Some(DepthFormat::Registered), bytes: 614400, width: 640, height: 480, data_bits_per_pixel: 16, padding_bits_per_pixel: 0, framerate: 30, is_valid: true },
        5 => FrameMode { resolution: Resolution::Medium, video_format: None, depth_format: Some(DepthFormat::Mm), bytes: 614400, width: 640, height: 480, data_bits_per_pixel: 16, padding_bits_per_pixel: 0, framerate: 30, is_valid: true },
        6 => FrameMode { resolution: Resolution::High, video_format: None, depth_format: Some(DepthFormat::Bit11), bytes: 0, width: 0, height: 0, data_bits_per_pixel: 0, padding_bits_per_pixel: 0, framerate: 0, is_valid: false },
        7 => FrameMode { resolution: Resolution::High, video_format: None, depth_format: Some(DepthFormat::Bit10), bytes: 0, width: 0, height: 0, data_bits_per_pixel: 0, padding_bits_per_pixel: 0, framerate: 0, is_valid: false },
        8 => FrameMode { resolution: Resolution::High, video_format: None, depth_format: Some(DepthFormat::Bit11Packed), bytes: 0, width: 0, height: 0, data_bits_per_pixel: 0, padding_bits_per_pixel: 0, framerate: 0, is_valid: false },
        9 => FrameMode { resolution: Resolution::High, video_format: None, depth_format: Some(DepthFormat::Bit10Packed), bytes: 0, width: 0, height: 0, data_bits_per_pixel: 0, padding_bits_per_pixel: 0, framerate: 0, is_valid: false },
        _ => FrameMode { resolution: Resolution::High, video_format: None, depth_format: Some(DepthFormat::Registered), bytes: 0, width: 0, height: 0, data_bits_per_pixel: 0, padding_bits_per_pixel: 0, framerate: 0, is_valid: false },
    }
}

/// A video mode has the given resolution and format.
pub open spec fn is_video_mode(m: FrameMode, resolution: Resolution, format: VideoFormat) -> bool {
    m.resolution == resolution && m.video_format == Some(format)
}

/// A depth mode has the given resolution and format.
pub open spec fn is_depth_mode(m: FrameMode, resolution: Resolution, format: DepthFormat) -> bool {
    m.resolution == resolution && m.depth_format == Some(format)
}

/// The first mode of `s` with the given resolution and video format.
pub open spec fn first_video_match(s: Seq<FrameMode>, resolution: Resolution, format: VideoFormat) -> Option<FrameMode>
    decreases s.len(),
{
    if s.len() == 0 {
        None
    } else if is_video_mode(s[0], resolution, format) {
        Some(s[0])
    } else {
        first_video_match(s.skip(1), resolution, format)
    }
}

/// The first mode of `s` with the given resolution and depth format.
pub open spec fn first_depth_match(s: Seq<FrameMode>, resolution: Resolution, format: DepthFormat) -> Option<FrameMode>
    decreases s.len(),
{
    if s.len() == 0 {
        None
    } else if is_depth_mode(s[0], resolution, format) {
        Some(s[0])
    } else {
        first_depth_match(s.skip(1), resolution, format)
    }
}

/// The first video mode of the table with the given resolution and format.
pub open spec fn spec_lookup_video_mode(resolution: Resolution, format: VideoFormat) -> Option<FrameMode> {
    first_video_match(video_modes(), resolution, format)
}

/// The first depth mode of the table with the given resolution and format.
pub open spec fn spec_lookup_depth_mode(resolution: Resolution, format: DepthFormat) -> Option<FrameMode> {
    first_depth_match(depth_modes(), resolution, format)
}

proof fn lemma_first_video_match_step(s: Seq<FrameMode>, resolution: Resolution, format: VideoFormat, i: int)
    requires
        0 <= i < s.len(),
        forall|j: int| 0 <= j < i ==> !is_video_mode(#[trigger] s[j], resolution, format),
    ensures
        first_video_match(s, resolution, format) == (if is_video_mode(s[i], resolution, format) {
            Some(s[i])
        } else {
            first_video_match(s.skip(i + 1), resolution, format)
        }),
    decreases i,
{
    if i > 0 {
        assert(!is_video_mode(s[0], resolution, format));
        assert forall|j: int| 0 <= j < i - 1 implies !is_video_mode(#[trigger] s.skip(1)[j], resolution, format) by {
            assert(s.skip(1)[j] == s[j + 1]);
        }
        lemma_first_video_match_step(s.skip(1), resolution, format, i - 1);
        assert(s.skip(1).skip(i) =~= s.skip(i + 1));
        assert(s.skip(1)[i - 1] == s[i]);
    }
}

proof fn lemma_first_depth_match_step(s: Seq<FrameMode>, resolution: Resolution, format: DepthFormat, i: int)
    requires
        0 <= i < s.len(),
        forall|j: int| 0 <= j < i ==> !is_depth_mode(#[trigger] s[j], resolution, format),
    ensures
        first_depth_match(s, resolution, format) == (if is_depth_mode(s[i], resolution, format) {
            Some(s[i])
        } else {
            first_depth_match(s.skip(i + 1), resolution, format)
        }),
    decreases i,
{
    if i > 0 {
        assert(!is_depth_mode(s[0], resolution, format));
        assert forall|j: int| 0 <= j < i - 1 implies !is_depth_mode(#[trigger] s.skip(1)[j], resolution, format) by {
            assert(s.skip(1)[j] == s[j + 1]);
        }
        lemma_first_depth_match_step(s.skip(1), resolution, format, i - 1);
        assert(s.skip(1).skip(i) =~= s.skip(i + 1));
        assert(s.skip(1)[i - 1] == s[i]);
    }
}

/// Look up a video mode by resolution and format.
pub fn lookup_video_mode(resolution: Resolution, format: VideoFormat) -> (r: Option<FrameMode>)
    ensures
        r == spec_lookup_video_mode(resolution, format),
{
    let mut i: usize = 0;
    while i < NUM_VIDEO_MODE_ENTRIES
        invariant
            i <= NUM_VIDEO_MODE_ENTRIES,
            video_modes().len() == NUM_VIDEO_MODE_ENTRIES,
            forall|j: int| 0 <= j < i ==> !is_video_mode(#[trigger] video_modes()[j], resolution, format),
        decreases NUM_VIDEO_MODE_ENTRIES - i,
    {
        let m = video_mode_entry(i);
        let fmt_matches = match m.video_format {
            Some(f) => f == format,
            None => false,
        };
        proof {
            lemma_first_video_match_step(video_modes(), resolution, format, i as int);
        }
        if m.resolution == resolution && fmt_matches {
            return Some(m);
        }
        i = i + 1;
    }
    proof {
        assert(video_modes().skip(NUM_VIDEO_MODE_ENTRIES as int) =~= Seq::<FrameMode>::empty());
        lemma_first_video_match_step(video_modes(), resolution, format, (NUM_VIDEO_MODE_ENTRIES - 1) as int);
    }
    None
}

/// Look up a depth mode by resolution and format.
pub fn lookup_depth_mode(resolution: Resolution, format: DepthFormat) -> (r: Option<FrameMode>)
    ensures
        r == spec_lookup_depth_mode(resolution, format),
{
    let mut i: usize = 0;
    while i < NUM_DEPTH_MODE_ENTRIES
        invariant
            i <= NUM_DEPTH_MODE_ENTRIES,
            depth_modes().len() == NUM_DEPTH_MODE_ENTRIES,
            forall|j: int| 0 <= j < i ==> !is_depth_mode(#[trigger] depth_modes()[j], resolution, format),
        decreases NUM_DEPTH_MODE_ENTRIES - i,
    {
        let m = depth_mode_entry(i);
        let fmt_matches = match m.depth_format {
            Some(f) => f == format,
            None => false,
        };
        proof {
            lemma_first_depth_match_step(depth_modes(), resolution, format, i as int);
        }
        if m.resolution == resolution && fmt_matches {
            return Some(m);
        }
        i = i + 1;
    }
    proof {
        assert(depth_modes().skip(NUM_DEPTH_MODE_ENTRIES as int) =~= Seq::<FrameMode>::empty());
        lemma_first_depth_match_step(depth_modes(), resolution, format, (NUM_DEPTH_MODE_ENTRIES - 1) as int);
    }
    None
}

/// The number of valid modes in `s`.
pub open spec fn count_valid(s: Seq<FrameMode>) -> nat
    decreases s.len(),
{
    if s.len() == 0 {
        0
    } else {
        count_valid(s.drop_last()) + if s.last().is_valid {
            1nat
        } else {
            0nat
        }
    }
}

/// Return the number of valid video modes.
pub fn num_video_modes() -> (r: usize)
    ensures
        r == count_valid(video_modes()),
{
    let mut n: usize = 0;
    let mut i: usize = 0;
    while i < NUM_VIDEO_MODE_ENTRIES
        invariant
            i <= NUM_VIDEO_MODE_ENTRIES,
            video_modes().len() == NUM_VIDEO_MODE_ENTRIES,
            n == count_valid(video_modes().take(i as int)),
            n <= i,
        decreases NUM_VIDEO_MODE_ENTRIES - i,
    {
        let m = video_mode_entry(i);
        assert(video_modes().take(i + 1).drop_last() =~= video_modes().take(i as int));
        if m.is_valid {
            n = n + 1;
        }
        i = i + 1;
    }
    assert(video_modes().take(NUM_VIDEO_MODE_ENTRIES as int) =~= video_modes());
    n
}

/// Return the number of valid depth modes.
pub fn num_depth_modes() -> (r: usize)
    ensures
        r == count_valid(depth_modes()),
{
    let mut n: usize = 0;
    let mut i: usize = 0;
    while i < NUM_DEPTH_MODE_ENTRIES
        invariant
            i <= NUM_DEPTH_MODE_ENTRIES,
            depth_modes().len() == NUM_DEPTH_MODE_ENTRIES,
            n == count_valid(depth_modes().take(i as int)),
            n <= i,
        decreases NUM_DEPTH_MODE_ENTRIES - i,
    {
        let m = depth_mode_entry(i);
        assert(depth_modes().take(i + 1).drop_last() =~= depth_modes().take(i as int));
        if m.is_valid {
            n = n + 1;
        }
        i = i + 1;
    }
    assert(depth_modes().take(NUM_DEPTH_MODE_ENTRIES as int) =~= depth_modes());
    n
}

} // verus!

verus! {

/// The size of a mode is that of its pixels: width times height samples of
/// data and padding bits; a mode is valid exactly when it has a size.
pub open spec fn mode_size_consistent(m: FrameMode) -> bool {
    &&& m.data_bits_per_pixel >= 0
    &&& m.padding_bits_per_pixel >= 0
    &&& m.bytes == m.width * m.height * (m.data_bits_per_pixel + m.padding_bits_per_pixel) / 8
    &&& (m.is_valid <==> m.bytes > 0)
}

/// Every mode of the tables has the size of its pixels, and is valid
/// exactly when that size is not zero.
pub proof fn lemma_mode_tables_consistent()
    ensures
        forall|i: int| 0 <= i < video_modes().len() ==> #[trigger] mode_size_consistent(video_modes()[i]),
        forall|i: int| 0 <= i < depth_modes().len() ==> #[trigger] mode_size_consistent(depth_modes()[i]),
{
    assert(video_modes()[0].width == 1280 && video_modes()[0].height == 1024);
    assert(video_modes()[0].width * video_modes()[0].height == 1310720);
    assert(1310720 * (24 + 0) == 31457280);
    assert(mode_size_consistent(video_modes()[0]));
    assert(video_modes()[1].width == 640 && video_modes()[1].height == 480);
    assert(video_modes()[1].width * video_modes()[1].height == 307200);
    assert(307200 * (24 + 0) == 7372800);
    assert(mode_size_consistent(video_modes()[1]));
    assert(video_modes()[2].width == 1280 && video_modes()[2].height == 1024);
    assert(video_modes()[2].width * video_modes()[2].height == 1310720);
    assert(1310720 * (8 + 0) == 10485760);
    assert(mode_size_consistent(video_modes()[2]));
    assert(video_modes()[3].width == 640 && video_modes()[3].height == 480);
    assert(video_modes()[3].width * video_modes()[3].height == 307200);
    assert(307200 * (8 + 0) == 2457600);
    assert(mode_size_consistent(video_modes()[3]));
    assert(video_modes()[4].width == 1280 && video_modes()[4].height == 1024);
    assert(video_modes()[4].width * video_modes()[4].height == 1310720);
    assert(1310720 * (8 + 0) == 10485760);
    assert(mode_size_consistent(video_modes()[4]));
    assert(video_modes()[5].width == 640 && video_modes()[5].height == 488);
    assert(video_modes()[5].width * video_modes()[5].height == 312320);
    assert(312320 * (8 + 0) == 2498560);
    assert(mode_size_consistent(video_modes()[5]));
    assert(video_modes()[6].width == 1280 && video_modes()[6].height == 1024);
    assert(video_modes()[6].width * video_modes()[6].height == 1310720);
    assert(1310720 * (10 + 6) == 20971520);
    assert(mode_size_consistent(video_modes()[6]));
    assert(video_modes()[7].width == 640 && video_modes()[7].height == 488);
    assert(video_modes()[7].width * video_modes()[7].height == 312320);
    assert(312320 * (10 + 6) == 4997120);
    assert(mode_size_consistent(video_modes()[7]));
    assert(video_modes()[8].width == 1280 && video_modes()[8].height == 1024);
    assert(video_modes()[8].width * video_modes()[8].height == 1310720);
    assert(1310720 * (10 + 0) == 13107200);
    assert(mode_size_consistent(video_modes()[8]));
    assert(video_modes()[9].width == 640 && video_modes()[9].height == 488);
    assert(video_modes()[9].width * video_modes()[9].height == 312320);
    assert(312320 * (10 + 0) == 3123200);
    assert(mode_size_consistent(video_modes()[9]));
    assert(video_modes()[10].width == 640 && video_modes()[10].height == 480);
    assert(video_modes()[10].width * video_modes()[10].height == 307200);
    assert(307200 * (24 + 0) == 7372800);
    assert(mode_size_consistent(video_modes()[10]));
    assert(video_modes()[11].width == 640 && video_modes()[11].height == 480);
    assert(video_modes()[11].width * video_modes()[11].height == 307200);
    assert(307200 * (16 + 0) == 4915200);
    assert(mode_size_consistent(video_modes()[11]));
    assert(depth_modes()[0].width == 640 && depth_modes()[0].height == 480);
    assert(depth_modes()[0].width * depth_modes()[0].height == 307200);
    assert(307200 * (11 + 5) == 4915200);
    assert(mode_size_consistent(depth_modes()[0]));
    assert(depth_modes()[1].width == 640 && depth_modes()[1].height == 480);
    assert(depth_modes()[1].width * depth_modes()[1].height == 307200);
    assert(307200 * (10 + 6) == 4915200);
    assert(mode_size_consistent(depth_modes()[1]));
    assert(depth_modes()[2].width == 640 && depth_modes()[2].height == 480);
    assert(depth_modes()[2].width * depth_modes()[2].height == 307200);
    assert(307200 * (11 + 0) == 3379200);
    assert(mode_size_consistent(depth_modes()[2]));
    assert(depth_modes()[3].width == 640 && depth_modes()[3].height == 480);
    assert(depth_modes()[3].width * depth_modes()[3].height == 307200);
    assert(307200 * (10 + 0) == 3072000);
    assert(mode_size_consistent(depth_modes()[3]));
    assert(depth_modes()[4].width == 640 && depth_modes()[4].height == 480);
    assert(depth_modes()[4].width * depth_modes()[4].height == 307200);
    assert(307200 * (16 + 0) == 4915200);
    assert(mode_size_consistent(depth_modes()[4]));
    assert(depth_modes()[5].width == 640 && depth_modes()[5].height == 480);
    assert(depth_modes()[5].width * depth_modes()[5].height == 307200);
    assert(307200 * (16 + 0) == 4915200);
    assert(mode_size_consistent(depth_modes()[5]));
    assert(depth_modes()[6].width == 0 && depth_modes()[6].height == 0);
    assert(depth_modes()[6].width * depth_modes()[6].height == 0);
    assert(0 * (0 + 0) == 0);
    assert(mode_size_consistent(depth_modes()[6]));
    assert(depth_modes()[7].width == 0 && depth_modes()[7].height == 0);
    assert(depth_modes()[7].width * depth_modes()[7].height == 0);
    assert(0 * (0 + 0) == 0);
    assert(mode_size_consistent(depth_modes()[7]));
    assert(depth_modes()[8].width == 0 && depth_modes()[8].height == 0);
    assert(depth_modes()[8].width * depth_modes()[8].height == 0);
    assert(0 * (0 + 0) == 0);
    assert(mode_size_consistent(depth_modes()[8]));
    assert(depth_modes()[9].width == 0 && depth_modes()[9].height == 0);
    assert(depth_modes()[9].width * depth_modes()[9].height == 0);
    assert(0 * (0 + 0) == 0);
    assert(mode_size_consistent(depth_modes()[9]));
    assert(depth_modes()[10].width == 0 && depth_modes()[10].height == 0);
    assert(depth_modes()[10].width * depth_modes()[10].height == 0);
    assert(0 * (0 + 0) == 0);
    assert(mode_size_consistent(depth_modes()[10]));
}

} // verus!

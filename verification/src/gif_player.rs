use vstd::prelude::*;
use image::AnimationDecoder;
use image::codecs::gif::GifDecoder;

verus! {

/// The frames the image crate's GIF decoder reads out of `bytes`: for each,
/// its width, its height, its RGBA pixels and how long it shows in
/// nanoseconds; `None` where the decoder refuses the bytes.
pub uninterp spec fn gif_frames(bytes: Seq<u8>) -> Option<Seq<(u32, u32, Seq<u8>, u128)>>;

/// A decoded frame as a plain value.
pub open spec fn frame_view(f: (u32, u32, Vec<u8>, u128)) -> (u32, u32, Seq<u8>, u128) {
    (f.0, f.1, f.2@, f.3)
}

/// Decodes `bytes` with image's `GifDecoder` and `collect_frames`, turning each
/// frame into its buffer's width, height and raw RGBA bytes and its delay as
/// nanoseconds. The decoder reads the bytes alone, so the contract claims the
/// named decoding; and, as image's `RgbaImage` buffers hold four bytes for
/// each pixel, that each frame's bytes number four times its width times its
/// height.
#[verifier::external_body]
fn decode_gif(bytes: &[u8]) -> (r: Option<Vec<(u32, u32, Vec<u8>, u128)>>)
    ensures
        match r {
            Some(v) => gif_frames(bytes@) == Some(v@.map_values(|f: (u32, u32, Vec<u8>, u128)| frame_view(f))),
            None => gif_frames(bytes@) is None,
        },
        r matches Some(v) ==> forall|i: int| 0 <= i < v@.len() ==> (#[trigger] v@[i]).2@.len() == 4 * v@[i].0 * v@[i].1,
{
    let decoder = match GifDecoder::new(std::io::Cursor::new(bytes)) {
        Ok(d) => d,
        Err(_) => return None,
    };
    let frames = match decoder.into_frames().collect_frames() {
        Ok(f) => f,
        Err(_) => return None,
    };
    Some(frames.into_iter().map(|f| {
        let nanos = std::time::Duration::from(f.delay()).as_nanos();
        let b = f.into_buffer();
        (b.width(), b.height(), b.into_raw(), nanos)
    }).collect())
}

/// A decoded animation: each frame's width, height and RGBA pixels, four
/// bytes a pixel, and how long each frame shows in nanoseconds.
pub struct GifAnimation {
    pub images: Vec<(u32, u32, Vec<u8>)>,
    pub delays: Vec<u128>,
}

impl GifAnimation {
    /// Decodes a GIF file's bytes into its frames and their delays. Bytes the
    /// decoder refuses, or that hold no frame, give `None`.
    pub fn from_gif(bytes: &[u8]) -> (r: Option<GifAnimation>)
        ensures
            match gif_frames(bytes@) {
                None => r is None,
                Some(fs) => if fs.len() == 0 {
                    r is None
                } else {
                    r matches Some(a) && {
                        &&& a.images@.len() == fs.len()
                        &&& a.delays@.len() == fs.len()
                        &&& forall|i: int| 0 <= i < fs.len() ==> {
                            &&& (#[trigger] a.images@[i]).0 == fs[i].0
                            &&& a.images@[i].1 == fs[i].1
                            &&& a.images@[i].2@ == fs[i].2
                            &&& a.images@[i].2@.len() == 4 * fs[i].0 * fs[i].1
                            &&& a.delays@[i] == fs[i].3
                        }
                    }
                },
            },
    {
        let decoded = match decode_gif(bytes) {
            Some(v) => v,
            None => return None,
        };
        if decoded.len() == 0 {
            return None;
        }
        let ghost fs = decoded@.map_values(|f: (u32, u32, Vec<u8>, u128)| frame_view(f));
        let mut images: Vec<(u32, u32, Vec<u8>)> = Vec::new();
        let mut delays: Vec<u128> = Vec::new();
        let mut rest = decoded;
        while rest.len() > 0
            invariant
                images@.len() == delays@.len(),
                images@.len() + rest@.len() == fs.len(),
                forall|i: int| 0 <= i < rest@.len() ==> frame_view(#[trigger] rest@[i]) == fs[images@.len() + i],
                forall|i: int| 0 <= i < fs.len() ==> (#[trigger] fs[i]).2.len() == 4 * fs[i].0 * fs[i].1,
                forall|i: int| 0 <= i < images@.len() ==> {
                    &&& (#[trigger] images@[i]).0 == fs[i].0
                    &&& images@[i].1 == fs[i].1
                    &&& images@[i].2@ == fs[i].2
                    &&& delays@[i] == fs[i].3
                },
            decreases rest@.len(),
        {
            let ghost k = images@.len();
            let ghost before = rest@;
            let (w, h, pixels, delay) = rest.remove(0);
            assert(frame_view(before[0]) == fs[k as int]);
            assert forall|i: int| 0 <= i < rest@.len() implies frame_view(#[trigger] rest@[i]) == fs[k + 1 + i] by {
                assert(rest@[i] == before[i + 1]);
            }
            images.push((w, h, pixels));
            delays.push(delay);
        }
        Some(GifAnimation { images, delays })
    }
}

/// The playback of an animation that plays once: which frame shows, and
/// whether it still plays.
pub struct GifClock {
    pub current_frame: usize,
    pub is_playing: bool,
}

impl GifClock {
    /// Playback from the first frame.
    pub fn new() -> (r: Self)
        ensures
            r.current_frame == 0,
            r.is_playing,
    {
        GifClock { current_frame: 0, is_playing: true }
    }

    /// A step of the clock, `elapsed` nanoseconds after the current frame
    /// came up, with the frames' delays in nanoseconds: once its delay has
    /// passed the next frame comes up, and after the last frame playback
    /// stops. Gives how long to wait before the next step, if another is due.
    pub fn step(&mut self, delays: &Vec<u128>, elapsed: u128) -> (r: Option<u128>)
        requires
            old(self).current_frame < delays@.len(),
        ensures
            final(self).current_frame < delays@.len(),
            !old(self).is_playing ==> *final(self) == *old(self) && r is None,
            old(self).is_playing && elapsed >= delays@[old(self).current_frame as int] && old(self).current_frame + 1 < delays@.len()
                ==> final(self).current_frame == old(self).current_frame + 1 && final(self).is_playing && r == Some(
                delays@[old(self).current_frame + 1],
            ),
            old(self).is_playing && elapsed >= delays@[old(self).current_frame as int] && old(self).current_frame + 1 >= delays@.len()
                ==> final(self).current_frame == old(self).current_frame && !final(self).is_playing && r is None,
            old(self).is_playing && elapsed < delays@[old(self).current_frame as int] ==> *final(self) == *old(self) && r == Some(
                (delays@[old(self).current_frame as int] - elapsed) as u128,
            ),
    {
        if !self.is_playing {
            return None;
        }
        let delay = delays[self.current_frame];
        if elapsed >= delay {
            if self.current_frame < delays.len() - 1 {
                self.current_frame = self.current_frame + 1;
                Some(delays[self.current_frame])
            } else {
                self.is_playing = false;
                None
            }
        } else {
            Some(delay - elapsed)
        }
    }
}

} // verus!

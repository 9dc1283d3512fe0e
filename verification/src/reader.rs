//! Low-level ACS file reader: a bounded cursor over the file image and the
//! structural decoders for every record of the container.
//!
//! Every read is specified against the grammar functions of
//! [`crate::format`]: a reader method returns exactly what the corresponding
//! `p_<entity>` function yields at the cursor's position, fails with exactly
//! the error it yields, and on failure of a primitive read leaves the cursor
//! where it was.

use vstd::prelude::*;
use crate::format::{le16_at, le32_at, lemma_push_concat, p_animation_entries, p_animation_entry,
    p_animation_info, p_animation_list, p_audio_data, p_audio_entries, p_audio_entry, p_audio_list,
    p_balloon_info, p_branch_info, p_branch_infos, p_bytes, p_character_info, p_frame_image,
    p_frame_images, p_frame_info, p_frame_infos, p_header, p_i16, p_i32, p_image_entries,
    p_image_entry, p_image_info, p_image_list, p_localized_info, p_localized_items,
    p_localized_list, p_locator, p_overlay_info, p_overlay_infos, p_palette_entries,
    p_palette_entry, p_state_info, p_state_infos, p_string, p_strings, rgb_at,
    p_tray_icon, p_u16, p_u32, p_u8, p_voice_info, utf16_units, AnimationEntryView, AnimationInfoView, AudioEntryView,
    BalloonInfoView, BranchInfoView, CharacterInfoView, FrameImageView, FrameInfoView,
    ImageEntryView, ImageInfoView, LocalizedInfoView, OverlayInfoView, StateInfoView,
    TrayIconView, VoiceExtraView, VoiceInfoView};
use crate::utf16::utf16_to_string;

verus! {

#[derive(Debug, Clone, PartialEq, Eq)]
pub enum ReaderError {
    UnexpectedEof,
    InvalidSignature(u32),
    InvalidOffset { offset: u32, size: u32 },
    InvalidUtf16,
}

pub const ACS_SIGNATURE: u32 = 0xABCDABC3;

/// An absolute byte range of the file image. A zero `size` marks an absent
/// section.
#[derive(Debug, Clone)]
pub struct Locator {
    pub offset: u32,
    pub size: u32,
}

/// The file header: signature and the four top-level section locators.
#[derive(Debug, Clone)]
pub struct AcsHeader {
    pub signature: u32,
    pub character_info: Locator,
    pub animation_info: Locator,
    pub image_info: Locator,
    pub audio_info: Locator,
}


/// A per-language bundle of display strings.
#[derive(Debug, Clone)]
pub struct LocalizedInfo {
    pub lang_id: u16,
    pub name: String,
    pub description: String,
    pub extra_data: String,
}

impl View for LocalizedInfo {
    type V = LocalizedInfoView;

    open spec fn view(&self) -> LocalizedInfoView {
        LocalizedInfoView {
            lang_id: self.lang_id,
            name: self.name@,
            description: self.description@,
            extra_data: self.extra_data@,
        }
    }
}

impl DeepView for LocalizedInfo {
    type V = LocalizedInfoView;

    open spec fn deep_view(&self) -> LocalizedInfoView {
        self.view()
    }
}

/// The optional extra block of a voice descriptor.
#[derive(Debug, Clone)]
pub struct VoiceExtraData {
    pub lang_id: u16,
    pub lang_dialect: String,
    pub gender: u16,
    pub age: u16,
    pub style: String,
}

impl View for VoiceExtraData {
    type V = VoiceExtraView;

    open spec fn view(&self) -> VoiceExtraView {
        VoiceExtraView {
            lang_id: self.lang_id,
            lang_dialect: self.lang_dialect@,
            gender: self.gender,
            age: self.age,
            style: self.style@,
        }
    }
}

impl DeepView for VoiceExtraData {
    type V = VoiceExtraView;

    open spec fn deep_view(&self) -> VoiceExtraView {
        self.view()
    }
}

/// A voice descriptor: engine and mode identifiers and prosody defaults.
#[derive(Debug, Clone)]
pub struct VoiceInfo {
    pub tts_engine_id: [u8; 16],
    pub tts_mode_id: [u8; 16],
    pub speed: u32,
    pub pitch: u16,
    pub extra_data_exists: bool,
    pub extra_data: Option<VoiceExtraData>,
}

impl View for VoiceInfo {
    type V = VoiceInfoView;

    open spec fn view(&self) -> VoiceInfoView {
        VoiceInfoView {
            tts_engine_id: self.tts_engine_id@,
            tts_mode_id: self.tts_mode_id@,
            speed: self.speed,
            pitch: self.pitch,
            extra_data_exists: self.extra_data_exists,
            extra_data: self.extra_data.deep_view(),
        }
    }
}

impl DeepView for VoiceInfo {
    type V = VoiceInfoView;

    open spec fn deep_view(&self) -> VoiceInfoView {
        self.view()
    }
}

/// A word-balloon descriptor. Colors are R,G,B, already normalized from the
/// on-disk B,G,R order.
#[derive(Debug, Clone)]
pub struct BalloonInfo {
    pub num_lines: u8,
    pub chars_per_line: u8,
    pub fg_color: [u8; 3],
    pub bg_color: [u8; 3],
    pub border_color: [u8; 3],
    pub font_name: String,
    pub font_height: i32,
    pub font_weight: i32,
    pub font_italic: bool,
    pub font_charset: u8,
}

impl View for BalloonInfo {
    type V = BalloonInfoView;

    open spec fn view(&self) -> BalloonInfoView {
        BalloonInfoView {
            num_lines: self.num_lines,
            chars_per_line: self.chars_per_line,
            fg_color: self.fg_color@,
            bg_color: self.bg_color@,
            border_color: self.border_color@,
            font_name: self.font_name@,
            font_height: self.font_height,
            font_weight: self.font_weight,
            font_italic: self.font_italic,
            font_charset: self.font_charset,
        }
    }
}

impl DeepView for BalloonInfo {
    type V = BalloonInfoView;

    open spec fn deep_view(&self) -> BalloonInfoView {
        self.view()
    }
}

/// The two tray-icon bitmaps.
#[derive(Debug, Clone)]
pub struct TrayIcon {
    pub mono_bitmap: Vec<u8>,
    pub color_bitmap: Vec<u8>,
}

impl View for TrayIcon {
    type V = TrayIconView;

    open spec fn view(&self) -> TrayIconView {
        TrayIconView { mono_bitmap: self.mono_bitmap@, color_bitmap: self.color_bitmap@ }
    }
}

impl DeepView for TrayIcon {
    type V = TrayIconView;

    open spec fn deep_view(&self) -> TrayIconView {
        self.view()
    }
}

/// A named grouping of animation names.
#[derive(Debug, Clone)]
pub struct StateInfo {
    pub name: String,
    pub animations: Vec<String>,
}

impl View for StateInfo {
    type V = StateInfoView;

    open spec fn view(&self) -> StateInfoView {
        StateInfoView { name: self.name@, animations: self.animations.deep_view() }
    }
}

impl DeepView for StateInfo {
    type V = StateInfoView;

    open spec fn deep_view(&self) -> StateInfoView {
        self.view()
    }
}

/// The decoded character-info block.
#[derive(Debug, Clone)]
pub struct RawCharacterInfo {
    pub minor_version: u16,
    pub major_version: u16,
    pub localized_info: Vec<LocalizedInfo>,
    pub guid: [u8; 16],
    pub width: u16,
    pub height: u16,
    pub transparent_color: u8,
    pub flags: u32,
    pub anim_set_major_version: u16,
    pub anim_set_minor_version: u16,
    pub voice_info: Option<VoiceInfo>,
    pub balloon_info: BalloonInfo,
    pub palette: Vec<[u8; 3]>,
    pub tray_icon: Option<TrayIcon>,
    pub states: Vec<StateInfo>,
}

impl View for RawCharacterInfo {
    type V = CharacterInfoView;

    open spec fn view(&self) -> CharacterInfoView {
        CharacterInfoView {
            minor_version: self.minor_version,
            major_version: self.major_version,
            localized_info: self.localized_info.deep_view(),
            guid: self.guid@,
            width: self.width,
            height: self.height,
            transparent_color: self.transparent_color,
            flags: self.flags,
            anim_set_major_version: self.anim_set_major_version,
            anim_set_minor_version: self.anim_set_minor_version,
            voice_info: self.voice_info.deep_view(),
            balloon_info: self.balloon_info@,
            palette: self.palette.deep_view(),
            tray_icon: self.tray_icon.deep_view(),
            states: self.states.deep_view(),
        }
    }
}

impl DeepView for RawCharacterInfo {
    type V = CharacterInfoView;

    open spec fn deep_view(&self) -> CharacterInfoView {
        self.view()
    }
}

/// A named animation and the locator of its record.
#[derive(Debug, Clone)]
pub struct AnimationEntry {
    pub name: String,
    pub locator: Locator,
}

impl View for AnimationEntry {
    type V = AnimationEntryView;

    open spec fn view(&self) -> AnimationEntryView {
        AnimationEntryView { name: self.name@, locator: self.locator }
    }
}

impl DeepView for AnimationEntry {
    type V = AnimationEntryView;

    open spec fn deep_view(&self) -> AnimationEntryView {
        self.view()
    }
}

/// One image of a frame.
#[derive(Debug, Clone)]
pub struct RawFrameImage {
    pub image_index: u32,
    pub x_offset: i16,
    pub y_offset: i16,
}

impl View for RawFrameImage {
    type V = FrameImageView;

    open spec fn view(&self) -> FrameImageView {
        FrameImageView {
            image_index: self.image_index,
            x_offset: self.x_offset,
            y_offset: self.y_offset,
        }
    }
}

impl DeepView for RawFrameImage {
    type V = FrameImageView;

    open spec fn deep_view(&self) -> FrameImageView {
        self.view()
    }
}

/// A branching rule of a frame.
#[derive(Debug, Clone)]
pub struct RawBranchInfo {
    pub frame_index: u16,
    pub probability: u16,
}

impl View for RawBranchInfo {
    type V = BranchInfoView;

    open spec fn view(&self) -> BranchInfoView {
        BranchInfoView { frame_index: self.frame_index, probability: self.probability }
    }
}

impl DeepView for RawBranchInfo {
    type V = BranchInfoView;

    open spec fn deep_view(&self) -> BranchInfoView {
        self.view()
    }
}

/// A mouth overlay of a frame.
#[derive(Debug, Clone)]
pub struct RawOverlayInfo {
    pub overlay_type: u8,
    pub replace_enabled: bool,
    pub image_index: u16,
    pub x_offset: i16,
    pub y_offset: i16,
    pub width: u16,
    pub height: u16,
    pub region_data: Option<Vec<u8>>,
}

impl View for RawOverlayInfo {
    type V = OverlayInfoView;

    open spec fn view(&self) -> OverlayInfoView {
        OverlayInfoView {
            overlay_type: self.overlay_type,
            replace_enabled: self.replace_enabled,
            image_index: self.image_index,
            x_offset: self.x_offset,
            y_offset: self.y_offset,
            width: self.width,
            height: self.height,
            region_data: self.region_data.deep_view(),
        }
    }
}

impl DeepView for RawOverlayInfo {
    type V = OverlayInfoView;

    open spec fn deep_view(&self) -> OverlayInfoView {
        self.view()
    }
}

/// One animation frame.
#[derive(Debug, Clone)]
pub struct RawFrameInfo {
    pub images: Vec<RawFrameImage>,
    pub sound_index: i16,
    pub duration: u16,
    pub exit_branch: i16,
    pub branches: Vec<RawBranchInfo>,
    pub overlays: Vec<RawOverlayInfo>,
}

impl View for RawFrameInfo {
    type V = FrameInfoView;

    open spec fn view(&self) -> FrameInfoView {
        FrameInfoView {
            images: self.images.deep_view(),
            sound_index: self.sound_index,
            duration: self.duration,
            exit_branch: self.exit_branch,
            branches: self.branches.deep_view(),
            overlays: self.overlays.deep_view(),
        }
    }
}

impl DeepView for RawFrameInfo {
    type V = FrameInfoView;

    open spec fn deep_view(&self) -> FrameInfoView {
        self.view()
    }
}

/// A decoded animation record.
#[derive(Debug, Clone)]
pub struct RawAnimationInfo {
    pub name: String,
    pub transition_type: u8,
    pub return_animation: String,
    pub frames: Vec<RawFrameInfo>,
}

impl View for RawAnimationInfo {
    type V = AnimationInfoView;

    open spec fn view(&self) -> AnimationInfoView {
        AnimationInfoView {
            name: self.name@,
            transition_type: self.transition_type,
            return_animation: self.return_animation@,
            frames: self.frames.deep_view(),
        }
    }
}

impl DeepView for RawAnimationInfo {
    type V = AnimationInfoView;

    open spec fn deep_view(&self) -> AnimationInfoView {
        self.view()
    }
}

/// An image-list entry.
#[derive(Debug, Clone)]
pub struct ImageEntry {
    pub locator: Locator,
    pub checksum: u32,
}

impl View for ImageEntry {
    type V = ImageEntryView;

    open spec fn view(&self) -> ImageEntryView {
        ImageEntryView { locator: self.locator, checksum: self.checksum }
    }
}

impl DeepView for ImageEntry {
    type V = ImageEntryView;

    open spec fn deep_view(&self) -> ImageEntryView {
        self.view()
    }
}

/// A decoded image record.
#[derive(Debug, Clone)]
pub struct RawImageInfo {
    pub width: u16,
    pub height: u16,
    pub is_compressed: bool,
    pub data: Vec<u8>,
    pub region_data: Option<Vec<u8>>,
}

impl View for RawImageInfo {
    type V = ImageInfoView;

    open spec fn view(&self) -> ImageInfoView {
        ImageInfoView {
            width: self.width,
            height: self.height,
            is_compressed: self.is_compressed,
            data: self.data@,
            region_data: self.region_data.deep_view(),
        }
    }
}

impl DeepView for RawImageInfo {
    type V = ImageInfoView;

    open spec fn deep_view(&self) -> ImageInfoView {
        self.view()
    }
}

/// An audio-list entry; the bytes at its locator are a complete WAV stream.
#[derive(Debug, Clone)]
pub struct AudioEntry {
    pub locator: Locator,
    pub checksum: u32,
}

impl View for AudioEntry {
    type V = AudioEntryView;

    open spec fn view(&self) -> AudioEntryView {
        AudioEntryView { locator: self.locator, checksum: self.checksum }
    }
}

impl DeepView for AudioEntry {
    type V = AudioEntryView;

    open spec fn deep_view(&self) -> AudioEntryView {
        self.view()
    }
}

/// A bounded cursor over the file image. Seeking past the end is allowed;
/// every read checks that its bytes lie inside the buffer.
pub struct AcsReader<'a> {
    data: &'a [u8],
    pos: u64,
}

impl<'a> AcsReader<'a> {
    /// The file image the reader walks.
    pub closed spec fn buf(&self) -> Seq<u8> {
        self.data@
    }

    /// The cursor position.
    pub closed spec fn cur(&self) -> int {
        self.pos as int
    }

    pub fn new(data: &'a [u8]) -> (r: AcsReader<'a>)
        ensures
            r.buf() == data@,
            r.cur() == 0,
    {
        AcsReader { data, pos: 0 }
    }

    pub fn position(&self) -> (r: u64)
        ensures
            r as int == self.cur(),
    {
        self.pos
    }

    pub fn seek(&mut self, pos: u64)
        ensures
            final(self).buf() == old(self).buf(),
            final(self).cur() == pos as int,
    {
        self.pos = pos;
    }

    pub fn len(&self) -> (r: usize)
        ensures
            r == self.buf().len(),
    {
        self.data.len()
    }

    pub fn is_empty(&self) -> (r: bool)
        ensures
            r == (self.buf().len() == 0),
    {
        self.data.len() == 0
    }

    /// Do at least `n` bytes follow the cursor?
    fn has(&self, n: u64) -> (r: bool)
        ensures
            r == (self.cur() + n <= self.buf().len()),
    {
        n <= self.data.len() as u64 && self.pos <= self.data.len() as u64 - n
    }

    pub fn read_u8(&mut self) -> (r: Result<u8, ReaderError>)
        ensures
            final(self).buf() == old(self).buf(),
            (match p_u8(old(self).buf(), old(self).cur()) {
                Ok((v, p)) => r == Ok::<u8, ReaderError>(v) && final(self).cur() == p,
                Err(e) => r == Err::<u8, ReaderError>(e) && final(self).cur() == old(self).cur(),
            }),
    {
        if self.has(1) {
            let i: usize = self.pos as usize;
            let b: u8 = self.data[i];
            self.pos = self.pos + 1;
            Ok(b)
        } else {
            Err(ReaderError::UnexpectedEof)
        }
    }

    pub fn read_u16(&mut self) -> (r: Result<u16, ReaderError>)
        ensures
            final(self).buf() == old(self).buf(),
            (match p_u16(old(self).buf(), old(self).cur()) {
                Ok((v, p)) => r == Ok::<u16, ReaderError>(v) && final(self).cur() == p,
                Err(e) => r == Err::<u16, ReaderError>(e) && final(self).cur() == old(self).cur(),
            }),
    {
        if self.has(2) {
            let i: usize = self.pos as usize;
            let v: u16 = self.data[i] as u16 + self.data[i + 1] as u16 * 0x100;
            self.pos = self.pos + 2;
            Ok(v)
        } else {
            Err(ReaderError::UnexpectedEof)
        }
    }

    pub fn read_i16(&mut self) -> (r: Result<i16, ReaderError>)
        ensures
            final(self).buf() == old(self).buf(),
            (match p_i16(old(self).buf(), old(self).cur()) {
                Ok((v, p)) => r == Ok::<i16, ReaderError>(v) && final(self).cur() == p,
                Err(e) => r == Err::<i16, ReaderError>(e) && final(self).cur() == old(self).cur(),
            }),
    {
        match self.read_u16() {
            Ok(v) => Ok(#[verifier::truncate] (v as i16)),
            Err(e) => Err(e),
        }
    }

    pub fn read_u32(&mut self) -> (r: Result<u32, ReaderError>)
        ensures
            final(self).buf() == old(self).buf(),
            (match p_u32(old(self).buf(), old(self).cur()) {
                Ok((v, p)) => r == Ok::<u32, ReaderError>(v) && final(self).cur() == p,
                Err(e) => r == Err::<u32, ReaderError>(e) && final(self).cur() == old(self).cur(),
            }),
    {
        if self.has(4) {
            let i: usize = self.pos as usize;
            let v: u32 = self.data[i] as u32 + self.data[i + 1] as u32 * 0x100 + self.data[i
                + 2] as u32 * 0x10000 + self.data[i + 3] as u32 * 0x1000000;
            self.pos = self.pos + 4;
            Ok(v)
        } else {
            Err(ReaderError::UnexpectedEof)
        }
    }

    pub fn read_i32(&mut self) -> (r: Result<i32, ReaderError>)
        ensures
            final(self).buf() == old(self).buf(),
            (match p_i32(old(self).buf(), old(self).cur()) {
                Ok((v, p)) => r == Ok::<i32, ReaderError>(v) && final(self).cur() == p,
                Err(e) => r == Err::<i32, ReaderError>(e) && final(self).cur() == old(self).cur(),
            }),
    {
        match self.read_u32() {
            Ok(v) => Ok(#[verifier::truncate] (v as i32)),
            Err(e) => Err(e),
        }
    }

    pub fn read_bytes(&mut self, len: usize) -> (r: Result<Vec<u8>, ReaderError>)
        ensures
            final(self).buf() == old(self).buf(),
            (match p_bytes(old(self).buf(), old(self).cur(), len as int) {
                Ok((v, p)) => r is Ok && r.unwrap()@ == v && final(self).cur() == p,
                Err(e) => r == Err::<Vec<u8>, ReaderError>(e) && final(self).cur() == old(
                    self,
                ).cur(),
            }),
    {
        if self.has(len as u64) {
            let ghost d0: Seq<u8> = self.buf();
            let buf_len: usize = self.data.len();
            let start: usize = self.pos as usize;
            let mut out: Vec<u8> = Vec::new();
            let mut j: usize = 0;
            while j < len
                invariant
                    j <= len,
                    d0 == self.buf(),
                    buf_len == d0.len(),
                    start == self.cur(),
                    start + len <= buf_len,
                    out@ =~= d0.subrange(start as int, start + j),
                decreases len - j,
            {
                let b: u8 = self.data[start + j];
                out.push(b);
                proof {
                    assert(out@ =~= d0.subrange(start as int, start + j + 1));
                }
                j = j + 1;
            }
            self.pos = self.pos + len as u64;
            Ok(out)
        } else {
            Err(ReaderError::UnexpectedEof)
        }
    }

    pub fn read_guid(&mut self) -> (r: Result<[u8; 16], ReaderError>)
        ensures
            final(self).buf() == old(self).buf(),
            (match p_bytes(old(self).buf(), old(self).cur(), 16) {
                Ok((v, p)) => r is Ok && r.unwrap()@ == v && final(self).cur() == p,
                Err(e) => r == Err::<[u8; 16], ReaderError>(e) && final(self).cur() == old(
                    self,
                ).cur(),
            }),
    {
        if self.has(16) {
            let i: usize = self.pos as usize;
            let g: [u8; 16] = [
                self.data[i],
                self.data[i + 1],
                self.data[i + 2],
                self.data[i + 3],
                self.data[i + 4],
                self.data[i + 5],
                self.data[i + 6],
                self.data[i + 7],
                self.data[i + 8],
                self.data[i + 9],
                self.data[i + 10],
                self.data[i + 11],
                self.data[i + 12],
                self.data[i + 13],
                self.data[i + 14],
                self.data[i + 15],
            ];
            self.pos = self.pos + 16;
            proof {
                assert(g@ =~= old(self).buf().subrange(old(self).cur(), old(self).cur() + 16));
            }
            Ok(g)
        } else {
            Err(ReaderError::UnexpectedEof)
        }
    }

    /// Read a length-prefixed UTF-16LE string: a `u32` character count, that
    /// many code units and a null terminator. A zero count consumes only the
    /// count itself.
    pub fn read_string(&mut self) -> (r: Result<String, ReaderError>)
        ensures
            final(self).buf() == old(self).buf(),
            (match p_string(old(self).buf(), old(self).cur()) {
                Ok((s, p)) => r is Ok && r.unwrap()@ == s && final(self).cur() == p,
                Err(e) => r == Err::<String, ReaderError>(e) && final(self).cur() == old(
                    self,
                ).cur(),
            }),
    {
        let ghost d: Seq<u8> = self.buf();
        let ghost p0: int = self.cur();
        if !self.has(4) {
            return Err(ReaderError::UnexpectedEof);
        }
        let i: usize = self.pos as usize;
        let n: u32 = self.data[i] as u32 + self.data[i + 1] as u32 * 0x100 + self.data[i
            + 2] as u32 * 0x10000 + self.data[i + 3] as u32 * 0x1000000;
        assert(n == le32_at(d, p0));
        if n == 0 {
            self.pos = self.pos + 4;
            return Ok(String::new());
        }
        // all code units and the terminator must be present
        let need: u64 = 4 + (n as u64 + 1) * 2;
        if !self.has(need) {
            return Err(ReaderError::UnexpectedEof);
        }
        let mut units: Vec<u16> = Vec::new();
        let mut j: usize = 0;
        let buf_len: usize = self.data.len();
        let base: usize = self.pos as usize + 4;
        while j < n as usize
            invariant
                j <= n as usize,
                d == self.buf(),
                p0 == self.cur(),
                buf_len == d.len(),
                base == p0 + 4,
                p0 + 4 + (n + 1) * 2 <= d.len(),
                units@ =~= utf16_units(d, p0 + 4, j as nat),
            decreases n as usize - j,
        {
            let u: u16 = self.data[base + 2 * j] as u16 + self.data[base + 2 * j + 1] as u16
                * 0x100;
            units.push(u);
            proof {
                assert(u == le16_at(d, p0 + 4 + 2 * (j as int)));
                assert(units@ =~= utf16_units(d, p0 + 4, (j + 1) as nat));
            }
            j = j + 1;
        }
        match utf16_to_string(&units) {
            None => Err(ReaderError::InvalidUtf16),
            Some(s) => {
                self.pos = self.pos + need;
                Ok(s)
            },
        }
    }

    pub fn read_locator(&mut self) -> (r: Result<Locator, ReaderError>)
        ensures
            final(self).buf() == old(self).buf(),
            (match p_locator(old(self).buf(), old(self).cur()) {
                Ok((v, p)) => r is Ok && r.unwrap() == v && final(self).cur() == p,
                Err(e) => r == Err::<Locator, ReaderError>(e),
            }),
    {
        let offset: u32 = match self.read_u32() {
            Ok(v) => v,
            Err(e) => {
                return Err(e);
            },
        };
        let size: u32 = match self.read_u32() {
            Ok(v) => v,
            Err(e) => {
                return Err(e);
            },
        };
        Ok(Locator { offset, size })
    }

    /// Read the file header. Any signature other than [`ACS_SIGNATURE`] is
    /// rejected without reading further.
    pub fn read_header(&mut self) -> (r: Result<AcsHeader, ReaderError>)
        ensures
            final(self).buf() == old(self).buf(),
            (match p_header(old(self).buf(), old(self).cur()) {
                Ok((v, p)) => r is Ok && r.unwrap() == v && final(self).cur() == p,
                Err(e) => r == Err::<AcsHeader, ReaderError>(e),
            }),
    {
        let signature: u32 = match self.read_u32() {
            Ok(v) => v,
            Err(e) => {
                return Err(e);
            },
        };
        if signature != ACS_SIGNATURE {
            return Err(ReaderError::InvalidSignature(signature));
        }
        let character_info: Locator = match self.read_locator() {
            Ok(v) => v,
            Err(e) => {
                return Err(e);
            },
        };
        let animation_info: Locator = match self.read_locator() {
            Ok(v) => v,
            Err(e) => {
                return Err(e);
            },
        };
        let image_info: Locator = match self.read_locator() {
            Ok(v) => v,
            Err(e) => {
                return Err(e);
            },
        };
        let audio_info: Locator = match self.read_locator() {
            Ok(v) => v,
            Err(e) => {
                return Err(e);
            },
        };
        Ok(AcsHeader { signature, character_info, animation_info, image_info, audio_info })
    }

    fn read_voice_info(&mut self) -> (r: Result<VoiceInfo, ReaderError>)
        ensures
            final(self).buf() == old(self).buf(),
            (match p_voice_info(old(self).buf(), old(self).cur()) {
                Ok((v, p)) => r is Ok && r.unwrap()@ == v && final(self).cur() == p,
                Err(e) => r == Err::<VoiceInfo, ReaderError>(e),
            }),
    {
        let tts_engine_id: [u8; 16] = match self.read_guid() {
            Ok(v) => v,
            Err(e) => {
                return Err(e);
            },
        };
        let tts_mode_id: [u8; 16] = match self.read_guid() {
            Ok(v) => v,
            Err(e) => {
                return Err(e);
            },
        };
        let speed: u32 = match self.read_u32() {
            Ok(v) => v,
            Err(e) => {
                return Err(e);
            },
        };
        let pitch: u16 = match self.read_u16() {
            Ok(v) => v,
            Err(e) => {
                return Err(e);
            },
        };
        let flag: u8 = match self.read_u8() {
            Ok(v) => v,
            Err(e) => {
                return Err(e);
            },
        };
        let extra_data_exists: bool = flag != 0;
        let extra_data: Option<VoiceExtraData> = if extra_data_exists {
            let lang_id: u16 = match self.read_u16() {
                Ok(v) => v,
                Err(e) => {
                    return Err(e);
                },
            };
            let lang_dialect: String = match self.read_string() {
                Ok(v) => v,
                Err(e) => {
                    return Err(e);
                },
            };
            let gender: u16 = match self.read_u16() {
                Ok(v) => v,
                Err(e) => {
                    return Err(e);
                },
            };
            let age: u16 = match self.read_u16() {
                Ok(v) => v,
                Err(e) => {
                    return Err(e);
                },
            };
            let style: String = match self.read_string() {
                Ok(v) => v,
                Err(e) => {
                    return Err(e);
                },
            };
            Some(VoiceExtraData { lang_id, lang_dialect, gender, age, style })
        } else {
            None
        };
        Ok(VoiceInfo { tts_engine_id, tts_mode_id, speed, pitch, extra_data_exists, extra_data })
    }

    fn read_balloon_info(&mut self) -> (r: Result<BalloonInfo, ReaderError>)
        ensures
            final(self).buf() == old(self).buf(),
            (match p_balloon_info(old(self).buf(), old(self).cur()) {
                Ok((v, p)) => r is Ok && r.unwrap()@ == v && final(self).cur() == p,
                Err(e) => r == Err::<BalloonInfo, ReaderError>(e),
            }),
    {
        let ghost d: Seq<u8> = self.buf();
        let ghost p0: int = self.cur();
        if !self.has(14) {
            return Err(ReaderError::UnexpectedEof);
        }
        let i: usize = self.pos as usize;
        let num_lines: u8 = self.data[i];
        let chars_per_line: u8 = self.data[i + 1];
        // colors are stored B,G,R,reserved and normalized to R,G,B
        let fg_color: [u8; 3] = [self.data[i + 4], self.data[i + 3], self.data[i + 2]];
        let bg_color: [u8; 3] = [self.data[i + 8], self.data[i + 7], self.data[i + 6]];
        let border_color: [u8; 3] = [self.data[i + 12], self.data[i + 11], self.data[i + 10]];
        self.pos = self.pos + 14;
        let font_name: String = match self.read_string() {
            Ok(v) => v,
            Err(e) => {
                return Err(e);
            },
        };
        let font_height: i32 = match self.read_i32() {
            Ok(v) => v,
            Err(e) => {
                return Err(e);
            },
        };
        let font_weight: i32 = match self.read_i32() {
            Ok(v) => v,
            Err(e) => {
                return Err(e);
            },
        };
        let italic: u8 = match self.read_u8() {
            Ok(v) => v,
            Err(e) => {
                return Err(e);
            },
        };
        let font_charset: u8 = match self.read_u8() {
            Ok(v) => v,
            Err(e) => {
                return Err(e);
            },
        };
        Ok(
            BalloonInfo {
                num_lines,
                chars_per_line,
                fg_color,
                bg_color,
                border_color,
                font_name,
                font_height,
                font_weight,
                font_italic: italic != 0,
                font_charset,
            },
        )
    }

    fn read_tray_icon(&mut self) -> (r: Result<TrayIcon, ReaderError>)
        ensures
            final(self).buf() == old(self).buf(),
            (match p_tray_icon(old(self).buf(), old(self).cur()) {
                Ok((v, p)) => r is Ok && r.unwrap()@ == v && final(self).cur() == p,
                Err(e) => r == Err::<TrayIcon, ReaderError>(e),
            }),
    {
        let mono_size: u32 = match self.read_u32() {
            Ok(v) => v,
            Err(e) => {
                return Err(e);
            },
        };
        let mono_bitmap: Vec<u8> = match self.read_bytes(mono_size as usize) {
            Ok(v) => v,
            Err(e) => {
                return Err(e);
            },
        };
        let color_size: u32 = match self.read_u32() {
            Ok(v) => v,
            Err(e) => {
                return Err(e);
            },
        };
        let color_bitmap: Vec<u8> = match self.read_bytes(color_size as usize) {
            Ok(v) => v,
            Err(e) => {
                return Err(e);
            },
        };
        Ok(TrayIcon { mono_bitmap, color_bitmap })
    }

    fn read_state_info(&mut self) -> (r: Result<StateInfo, ReaderError>)
        ensures
            final(self).buf() == old(self).buf(),
            (match p_state_info(old(self).buf(), old(self).cur()) {
                Ok((v, p)) => r is Ok && r.unwrap()@ == v && final(self).cur() == p,
                Err(e) => r == Err::<StateInfo, ReaderError>(e),
            }),
    {
        let name: String = match self.read_string() {
            Ok(v) => v,
            Err(e) => {
                return Err(e);
            },
        };
        let count: u16 = match self.read_u16() {
            Ok(v) => v,
            Err(e) => {
                return Err(e);
            },
        };
        let animations: Vec<String> = match self.read_string_list(count) {
            Ok(v) => v,
            Err(e) => {
                return Err(e);
            },
        };
        Ok(StateInfo { name, animations })
    }

    /// Read `count` strings, one after another.
    fn read_string_list(&mut self, count: u16) -> (r: Result<Vec<String>, ReaderError>)
        ensures
            final(self).buf() == old(self).buf(),
            (match p_strings(old(self).buf(), old(self).cur(), count as nat) {
                Ok((vs, p)) => r is Ok && r.unwrap().deep_view() == vs && final(self).cur() == p,
                Err(e) => r == Err::<Vec<String>, ReaderError>(e),
            }),
    {
        let ghost d: Seq<u8> = self.buf();
        let ghost p_start: int = self.cur();
        let mut items: Vec<String> = Vec::new();
        let mut i: u16 = 0;
        proof {
            assert(items.deep_view() =~~= Seq::<Seq<char>>::empty());
            if let Ok((vs, q)) = p_strings(d, p_start, count as nat) {
                assert(Seq::<Seq<char>>::empty() + vs =~= vs);
            }
        }
        while i < count
            invariant
                i <= count,
                d == old(self).buf(),
                d == self.buf(),
                p_start == old(self).cur(),
                items@.len() == i as int,
                (match p_strings(d, self.cur(), (count - i) as nat) {
                    Err(e) => p_strings(d, p_start, count as nat) == Err::<
                        (Seq<Seq<char>>, int),
                        ReaderError,
                    >(e),
                    Ok((vs, q)) => p_strings(d, p_start, count as nat) == Ok::<
                        (Seq<Seq<char>>, int),
                        ReaderError,
                    >((items.deep_view() + vs, q)),
                }),
            decreases count - i,
        {
            let ghost dv0: Seq<Seq<char>> = items.deep_view();
            let item: String = match self.read_string() {
                Ok(v) => v,
                Err(e) => {
                    return Err(e);
                },
            };
            items.push(item);
            proof {
                assert(items@[i as int].deep_view() =~~= items@[i as int]@);
                assert(items.deep_view() =~~= dv0.push(items@[i as int]@));
                if let Ok((vs2, q)) = p_strings(d, self.cur(), (count - i - 1) as nat) {
                    lemma_push_concat(dv0, items@[i as int]@, vs2);
                }
            }
            i = i + 1;
        }
        proof {
            if let Ok((vs, q)) = p_strings(d, self.cur(), 0) {
                assert(items.deep_view() + vs =~= items.deep_view());
            }
        }
        Ok(items)
    }

    fn read_localized_info(&mut self) -> (r: Result<LocalizedInfo, ReaderError>)
        ensures
            final(self).buf() == old(self).buf(),
            (match p_localized_info(old(self).buf(), old(self).cur()) {
                Ok((v, p)) => r is Ok && r.unwrap()@ == v && final(self).cur() == p,
                Err(e) => r == Err::<LocalizedInfo, ReaderError>(e),
            }),
    {
        let lang_id: u16 = match self.read_u16() {
            Ok(v) => v,
            Err(e) => {
                return Err(e);
            },
        };
        let name: String = match self.read_string() {
            Ok(v) => v,
            Err(e) => {
                return Err(e);
            },
        };
        let description: String = match self.read_string() {
            Ok(v) => v,
            Err(e) => {
                return Err(e);
            },
        };
        let extra_data: String = match self.read_string() {
            Ok(v) => v,
            Err(e) => {
                return Err(e);
            },
        };
        Ok(LocalizedInfo { lang_id, name, description, extra_data })
    }

    fn read_localized_info_list(&mut self, locator: Locator) -> (r: Result<
        Vec<LocalizedInfo>,
        ReaderError,
    >)
        ensures
            final(self).buf() == old(self).buf(),
            (match p_localized_list(old(self).buf(), locator) {
                Ok((vs, p)) => r is Ok && r.unwrap().deep_view() == vs,
                Err(e) => r == Err::<Vec<LocalizedInfo>, ReaderError>(e),
            }),
    {
        if locator.size == 0 {
            let empty: Vec<LocalizedInfo> = Vec::new();
            proof {
                assert(empty.deep_view() =~= Seq::<LocalizedInfoView>::empty());
            }
            return Ok(empty);
        }
        self.seek(locator.offset as u64);
        let count: u16 = match self.read_u16() {
            Ok(v) => v,
            Err(e) => {
                return Err(e);
            },
        };
        self.read_localized_items(count)
    }

    /// Read `count` localized-info records, one after another.
    fn read_localized_items(&mut self, count: u16) -> (r: Result<Vec<LocalizedInfo>, ReaderError>)
        ensures
            final(self).buf() == old(self).buf(),
            (match p_localized_items(old(self).buf(), old(self).cur(), count as nat) {
                Ok((vs, p)) => r is Ok && r.unwrap().deep_view() == vs && final(self).cur() == p,
                Err(e) => r == Err::<Vec<LocalizedInfo>, ReaderError>(e),
            }),
    {
        let ghost d: Seq<u8> = self.buf();
        let ghost p_start: int = self.cur();
        let mut items: Vec<LocalizedInfo> = Vec::new();
        let mut i: u16 = 0;
        proof {
            assert(items.deep_view() =~~= Seq::<LocalizedInfoView>::empty());
            if let Ok((vs, q)) = p_localized_items(d, p_start, count as nat) {
                assert(Seq::<LocalizedInfoView>::empty() + vs =~= vs);
            }
        }
        while i < count
            invariant
                i <= count,
                d == old(self).buf(),
                d == self.buf(),
                p_start == old(self).cur(),
                items@.len() == i as int,
                (match p_localized_items(d, self.cur(), (count - i) as nat) {
                    Err(e) => p_localized_items(d, p_start, count as nat) == Err::<
                        (Seq<LocalizedInfoView>, int),
                        ReaderError,
                    >(e),
                    Ok((vs, q)) => p_localized_items(d, p_start, count as nat) == Ok::<
                        (Seq<LocalizedInfoView>, int),
                        ReaderError,
                    >((items.deep_view() + vs, q)),
                }),
            decreases count - i,
        {
            let ghost dv0: Seq<LocalizedInfoView> = items.deep_view();
            let item: LocalizedInfo = match self.read_localized_info() {
                Ok(v) => v,
                Err(e) => {
                    return Err(e);
                },
            };
            items.push(item);
            proof {
                assert(items@[i as int].deep_view() =~~= items@[i as int]@);
                assert(items.deep_view() =~~= dv0.push(items@[i as int]@));
                if let Ok((vs2, q)) = p_localized_items(d, self.cur(), (count - i - 1) as nat) {
                    lemma_push_concat(dv0, items@[i as int]@, vs2);
                }
            }
            i = i + 1;
        }
        proof {
            if let Ok((vs, q)) = p_localized_items(d, self.cur(), 0) {
                assert(items.deep_view() + vs =~= items.deep_view());
            }
        }
        Ok(items)
    }

    /// Read the character-info block at the given absolute offset, followed
    /// by the localized-info list at the locator stored inside it.
    #[verifier::rlimit(60)]
    pub fn read_character_info(&mut self, offset: u32) -> (r: Result<RawCharacterInfo, ReaderError>)
        ensures
            final(self).buf() == old(self).buf(),
            (match p_character_info(old(self).buf(), offset) {
                Ok((v, p)) => r is Ok && r.unwrap()@ == v,
                Err(e) => r == Err::<RawCharacterInfo, ReaderError>(e),
            }),
    {
        let ghost d: Seq<u8> = self.buf();
        self.seek(offset as u64);
        if !self.has(37) {
            return Err(ReaderError::UnexpectedEof);
        }
        let minor_version: u16 = match self.read_u16() {
            Ok(v) => v,
            Err(e) => {
                return Err(e);
            },
        };
        let major_version: u16 = match self.read_u16() {
            Ok(v) => v,
            Err(e) => {
                return Err(e);
            },
        };
        let localized_info_locator: Locator = match self.read_locator() {
            Ok(v) => v,
            Err(e) => {
                return Err(e);
            },
        };
        let guid: [u8; 16] = match self.read_guid() {
            Ok(v) => v,
            Err(e) => {
                return Err(e);
            },
        };
        let width: u16 = match self.read_u16() {
            Ok(v) => v,
            Err(e) => {
                return Err(e);
            },
        };
        let height: u16 = match self.read_u16() {
            Ok(v) => v,
            Err(e) => {
                return Err(e);
            },
        };
        let transparent_color: u8 = match self.read_u8() {
            Ok(v) => v,
            Err(e) => {
                return Err(e);
            },
        };
        let flags: u32 = match self.read_u32() {
            Ok(v) => v,
            Err(e) => {
                return Err(e);
            },
        };
        let anim_set_major_version: u16 = match self.read_u16() {
            Ok(v) => v,
            Err(e) => {
                return Err(e);
            },
        };
        let anim_set_minor_version: u16 = match self.read_u16() {
            Ok(v) => v,
            Err(e) => {
                return Err(e);
            },
        };
        // the voice descriptor is present if and only if bit 5 of the flags
        // word is set
        let voice_info: Option<VoiceInfo> = if flags & 0x20 != 0 {
            match self.read_voice_info() {
                Ok(v) => Some(v),
                Err(e) => {
                    return Err(e);
                },
            }
        } else {
            None
        };
        let balloon_info: BalloonInfo = match self.read_balloon_info() {
            Ok(v) => v,
            Err(e) => {
                return Err(e);
            },
        };
        let pal_count: u32 = match self.read_u32() {
            Ok(v) => v,
            Err(e) => {
                return Err(e);
            },
        };
        let palette: Vec<[u8; 3]> = match self.read_palette_entries(pal_count) {
            Ok(v) => v,
            Err(e) => {
                return Err(e);
            },
        };
        let tray_flag: u8 = match self.read_u8() {
            Ok(v) => v,
            Err(e) => {
                return Err(e);
            },
        };
        let tray_icon: Option<TrayIcon> = if tray_flag != 0 {
            match self.read_tray_icon() {
                Ok(v) => Some(v),
                Err(e) => {
                    return Err(e);
                },
            }
        } else {
            None
        };
        let state_count: u16 = match self.read_u16() {
            Ok(v) => v,
            Err(e) => {
                return Err(e);
            },
        };
        let states: Vec<StateInfo> = match self.read_state_list(state_count) {
            Ok(v) => v,
            Err(e) => {
                return Err(e);
            },
        };
        // the localized-info list lives at its own locator
        let localized_info: Vec<LocalizedInfo> = match self.read_localized_info_list(
            localized_info_locator,
        ) {
            Ok(v) => v,
            Err(e) => {
                return Err(e);
            },
        };
        Ok(
            RawCharacterInfo {
                minor_version,
                major_version,
                localized_info,
                guid,
                width,
                height,
                transparent_color,
                flags,
                anim_set_major_version,
                anim_set_minor_version,
                voice_info,
                balloon_info,
                palette,
                tray_icon,
                states,
            },
        )
    }

    /// Read `count` palette entries, one after another.
    fn read_palette_entries(&mut self, count: u32) -> (r: Result<Vec<[u8; 3]>, ReaderError>)
        ensures
            final(self).buf() == old(self).buf(),
            (match p_palette_entries(old(self).buf(), old(self).cur(), count as nat) {
                Ok((vs, p)) => r is Ok && r.unwrap().deep_view() == vs && final(self).cur() == p,
                Err(e) => r == Err::<Vec<[u8; 3]>, ReaderError>(e),
            }),
    {
        let ghost d: Seq<u8> = self.buf();
        let ghost p_start: int = self.cur();
        let mut items: Vec<[u8; 3]> = Vec::new();
        let mut i: u32 = 0;
        proof {
            assert(items.deep_view() =~~= Seq::<Seq<u8>>::empty());
            if let Ok((vs, q)) = p_palette_entries(d, p_start, count as nat) {
                assert(Seq::<Seq<u8>>::empty() + vs =~= vs);
            }
        }
        while i < count
            invariant
                i <= count,
                d == old(self).buf(),
                d == self.buf(),
                p_start == old(self).cur(),
                items@.len() == i as int,
                (match p_palette_entries(d, self.cur(), (count - i) as nat) {
                    Err(e) => p_palette_entries(d, p_start, count as nat) == Err::<
                        (Seq<Seq<u8>>, int),
                        ReaderError,
                    >(e),
                    Ok((vs, q)) => p_palette_entries(d, p_start, count as nat) == Ok::<
                        (Seq<Seq<u8>>, int),
                        ReaderError,
                    >((items.deep_view() + vs, q)),
                }),
            decreases count - i,
        {
            let ghost dv0: Seq<Seq<u8>> = items.deep_view();
            let item: [u8; 3] = match self.read_palette_entry() {
                Ok(v) => v,
                Err(e) => {
                    return Err(e);
                },
            };
            items.push(item);
            proof {
                assert(items@[i as int].deep_view() =~~= items@[i as int]@);
                assert(items.deep_view() =~~= dv0.push(items@[i as int]@));
                if let Ok((vs2, q)) = p_palette_entries(d, self.cur(), (count - i - 1) as nat) {
                    lemma_push_concat(dv0, items@[i as int]@, vs2);
                }
            }
            i = i + 1;
        }
        proof {
            if let Ok((vs, q)) = p_palette_entries(d, self.cur(), 0) {
                assert(items.deep_view() + vs =~= items.deep_view());
            }
        }
        Ok(items)
    }

    /// Read `count` state records, one after another.
    fn read_state_list(&mut self, count: u16) -> (r: Result<Vec<StateInfo>, ReaderError>)
        ensures
            final(self).buf() == old(self).buf(),
            (match p_state_infos(old(self).buf(), old(self).cur(), count as nat) {
                Ok((vs, p)) => r is Ok && r.unwrap().deep_view() == vs && final(self).cur() == p,
                Err(e) => r == Err::<Vec<StateInfo>, ReaderError>(e),
            }),
    {
        let ghost d: Seq<u8> = self.buf();
        let ghost p_start: int = self.cur();
        let mut items: Vec<StateInfo> = Vec::new();
        let mut i: u16 = 0;
        proof {
            assert(items.deep_view() =~~= Seq::<StateInfoView>::empty());
            if let Ok((vs, q)) = p_state_infos(d, p_start, count as nat) {
                assert(Seq::<StateInfoView>::empty() + vs =~= vs);
            }
        }
        while i < count
            invariant
                i <= count,
                d == old(self).buf(),
                d == self.buf(),
                p_start == old(self).cur(),
                items@.len() == i as int,
                (match p_state_infos(d, self.cur(), (count - i) as nat) {
                    Err(e) => p_state_infos(d, p_start, count as nat) == Err::<
                        (Seq<StateInfoView>, int),
                        ReaderError,
                    >(e),
                    Ok((vs, q)) => p_state_infos(d, p_start, count as nat) == Ok::<
                        (Seq<StateInfoView>, int),
                        ReaderError,
                    >((items.deep_view() + vs, q)),
                }),
            decreases count - i,
        {
            let ghost dv0: Seq<StateInfoView> = items.deep_view();
            let item: StateInfo = match self.read_state_info() {
                Ok(v) => v,
                Err(e) => {
                    return Err(e);
                },
            };
            items.push(item);
            proof {
                assert(items@[i as int].deep_view() =~~= items@[i as int]@);
                assert(items.deep_view() =~~= dv0.push(items@[i as int]@));
                if let Ok((vs2, q)) = p_state_infos(d, self.cur(), (count - i - 1) as nat) {
                    lemma_push_concat(dv0, items@[i as int]@, vs2);
                }
            }
            i = i + 1;
        }
        proof {
            if let Ok((vs, q)) = p_state_infos(d, self.cur(), 0) {
                assert(items.deep_view() + vs =~= items.deep_view());
            }
        }
        Ok(items)
    }

    fn read_palette_entry(&mut self) -> (r: Result<[u8; 3], ReaderError>)
        ensures
            final(self).buf() == old(self).buf(),
            (match p_palette_entry(old(self).buf(), old(self).cur()) {
                Ok((v, p)) => r is Ok && r.unwrap()@ == v && final(self).cur() == p,
                Err(e) => r == Err::<[u8; 3], ReaderError>(e),
            }),
    {
        if self.has(4) {
            let blen: usize = self.data.len();
            let i: usize = self.pos as usize;
            // stored B,G,R,reserved; normalized to R,G,B
            let b: u8 = self.data[i];
            let g: u8 = self.data[i + 1];
            let r2: u8 = self.data[i + 2];
            let entry: [u8; 3] = [r2, g, b];
            self.pos = self.pos + 4;
            proof {
                assert(entry@ =~= rgb_at(old(self).buf(), old(self).cur()));
            }
            Ok(entry)
        } else {
            Err(ReaderError::UnexpectedEof)
        }
    }

    fn read_animation_entry(&mut self) -> (r: Result<AnimationEntry, ReaderError>)
        ensures
            final(self).buf() == old(self).buf(),
            (match p_animation_entry(old(self).buf(), old(self).cur()) {
                Ok((v, p)) => r is Ok && r.unwrap()@ == v && final(self).cur() == p,
                Err(e) => r == Err::<AnimationEntry, ReaderError>(e),
            }),
    {
        let name: String = match self.read_string() {
            Ok(v) => v,
            Err(e) => {
                return Err(e);
            },
        };
        let locator: Locator = match self.read_locator() {
            Ok(v) => v,
            Err(e) => {
                return Err(e);
            },
        };
        Ok(AnimationEntry { name, locator })
    }

    /// Read `count` animation entries, one after another.
    fn read_animation_entries(&mut self, count: u32) -> (r: Result<Vec<AnimationEntry>, ReaderError>)
        ensures
            final(self).buf() == old(self).buf(),
            (match p_animation_entries(old(self).buf(), old(self).cur(), count as nat) {
                Ok((vs, p)) => r is Ok && r.unwrap().deep_view() == vs && final(self).cur() == p,
                Err(e) => r == Err::<Vec<AnimationEntry>, ReaderError>(e),
            }),
    {
        let ghost d: Seq<u8> = self.buf();
        let ghost p_start: int = self.cur();
        let mut items: Vec<AnimationEntry> = Vec::new();
        let mut i: u32 = 0;
        proof {
            assert(items.deep_view() =~~= Seq::<AnimationEntryView>::empty());
            if let Ok((vs, q)) = p_animation_entries(d, p_start, count as nat) {
                assert(Seq::<AnimationEntryView>::empty() + vs =~= vs);
            }
        }
        while i < count
            invariant
                i <= count,
                d == old(self).buf(),
                d == self.buf(),
                p_start == old(self).cur(),
                items@.len() == i as int,
                (match p_animation_entries(d, self.cur(), (count - i) as nat) {
                    Err(e) => p_animation_entries(d, p_start, count as nat) == Err::<
                        (Seq<AnimationEntryView>, int),
                        ReaderError,
                    >(e),
                    Ok((vs, q)) => p_animation_entries(d, p_start, count as nat) == Ok::<
                        (Seq<AnimationEntryView>, int),
                        ReaderError,
                    >((items.deep_view() + vs, q)),
                }),
            decreases count - i,
        {
            let ghost dv0: Seq<AnimationEntryView> = items.deep_view();
            let item: AnimationEntry = match self.read_animation_entry() {
                Ok(v) => v,
                Err(e) => {
                    return Err(e);
                },
            };
            items.push(item);
            proof {
                assert(items@[i as int].deep_view() =~~= items@[i as int]@);
                assert(items.deep_view() =~~= dv0.push(items@[i as int]@));
                if let Ok((vs2, q)) = p_animation_entries(d, self.cur(), (count - i - 1) as nat) {
                    lemma_push_concat(dv0, items@[i as int]@, vs2);
                }
            }
            i = i + 1;
        }
        proof {
            if let Ok((vs, q)) = p_animation_entries(d, self.cur(), 0) {
                assert(items.deep_view() + vs =~= items.deep_view());
            }
        }
        Ok(items)
    }


    /// Read the animation list at its locator: a count then that many named
    /// entries. A zero-sized locator yields an empty list without reading.
    pub fn read_animation_list(&mut self, locator: &Locator) -> (r: Result<
        Vec<AnimationEntry>,
        ReaderError,
    >)
        ensures
            final(self).buf() == old(self).buf(),
            (match p_animation_list(old(self).buf(), *locator) {
                Ok((vs, p)) => r is Ok && r.unwrap().deep_view() == vs,
                Err(e) => r == Err::<Vec<AnimationEntry>, ReaderError>(e),
            }),
    {
        if locator.size == 0 {
            let empty: Vec<AnimationEntry> = Vec::new();
            proof {
                assert(empty.deep_view() =~= Seq::<AnimationEntryView>::empty());
            }
            return Ok(empty);
        }
        self.seek(locator.offset as u64);
        let count: u32 = match self.read_u32() {
            Ok(v) => v,
            Err(e) => {
                return Err(e);
            },
        };
        self.read_animation_entries(count)
    }

    fn read_frame_image(&mut self) -> (r: Result<RawFrameImage, ReaderError>)
        ensures
            final(self).buf() == old(self).buf(),
            (match p_frame_image(old(self).buf(), old(self).cur()) {
                Ok((v, p)) => r is Ok && r.unwrap()@ == v && final(self).cur() == p,
                Err(e) => r == Err::<RawFrameImage, ReaderError>(e),
            }),
    {
        let image_index: u32 = match self.read_u32() {
            Ok(v) => v,
            Err(e) => {
                return Err(e);
            },
        };
        let x_offset: i16 = match self.read_i16() {
            Ok(v) => v,
            Err(e) => {
                return Err(e);
            },
        };
        let y_offset: i16 = match self.read_i16() {
            Ok(v) => v,
            Err(e) => {
                return Err(e);
            },
        };
        Ok(RawFrameImage { image_index, x_offset, y_offset })
    }

    /// Read `count` frame images, one after another.
    fn read_frame_images(&mut self, count: u16) -> (r: Result<Vec<RawFrameImage>, ReaderError>)
        ensures
            final(self).buf() == old(self).buf(),
            (match p_frame_images(old(self).buf(), old(self).cur(), count as nat) {
                Ok((vs, p)) => r is Ok && r.unwrap().deep_view() == vs && final(self).cur() == p,
                Err(e) => r == Err::<Vec<RawFrameImage>, ReaderError>(e),
            }),
    {
        let ghost d: Seq<u8> = self.buf();
        let ghost p_start: int = self.cur();
        let mut items: Vec<RawFrameImage> = Vec::new();
        let mut i: u16 = 0;
        proof {
            assert(items.deep_view() =~~= Seq::<FrameImageView>::empty());
            if let Ok((vs, q)) = p_frame_images(d, p_start, count as nat) {
                assert(Seq::<FrameImageView>::empty() + vs =~= vs);
            }
        }
        while i < count
            invariant
                i <= count,
                d == old(self).buf(),
                d == self.buf(),
                p_start == old(self).cur(),
                items@.len() == i as int,
                (match p_frame_images(d, self.cur(), (count - i) as nat) {
                    Err(e) => p_frame_images(d, p_start, count as nat) == Err::<
                        (Seq<FrameImageView>, int),
                        ReaderError,
                    >(e),
                    Ok((vs, q)) => p_frame_images(d, p_start, count as nat) == Ok::<
                        (Seq<FrameImageView>, int),
                        ReaderError,
                    >((items.deep_view() + vs, q)),
                }),
            decreases count - i,
        {
            let ghost dv0: Seq<FrameImageView> = items.deep_view();
            let item: RawFrameImage = match self.read_frame_image() {
                Ok(v) => v,
                Err(e) => {
                    return Err(e);
                },
            };
            items.push(item);
            proof {
                assert(items@[i as int].deep_view() =~~= items@[i as int]@);
                assert(items.deep_view() =~~= dv0.push(items@[i as int]@));
                if let Ok((vs2, q)) = p_frame_images(d, self.cur(), (count - i - 1) as nat) {
                    lemma_push_concat(dv0, items@[i as int]@, vs2);
                }
            }
            i = i + 1;
        }
        proof {
            if let Ok((vs, q)) = p_frame_images(d, self.cur(), 0) {
                assert(items.deep_view() + vs =~= items.deep_view());
            }
        }
        Ok(items)
    }


    fn read_branch_info(&mut self) -> (r: Result<RawBranchInfo, ReaderError>)
        ensures
            final(self).buf() == old(self).buf(),
            (match p_branch_info(old(self).buf(), old(self).cur()) {
                Ok((v, p)) => r is Ok && r.unwrap()@ == v && final(self).cur() == p,
                Err(e) => r == Err::<RawBranchInfo, ReaderError>(e),
            }),
    {
        let frame_index: u16 = match self.read_u16() {
            Ok(v) => v,
            Err(e) => {
                return Err(e);
            },
        };
        let probability: u16 = match self.read_u16() {
            Ok(v) => v,
            Err(e) => {
                return Err(e);
            },
        };
        Ok(RawBranchInfo { frame_index, probability })
    }

    /// Read `count` branch rules, one after another.
    fn read_branch_infos(&mut self, count: u8) -> (r: Result<Vec<RawBranchInfo>, ReaderError>)
        ensures
            final(self).buf() == old(self).buf(),
            (match p_branch_infos(old(self).buf(), old(self).cur(), count as nat) {
                Ok((vs, p)) => r is Ok && r.unwrap().deep_view() == vs && final(self).cur() == p,
                Err(e) => r == Err::<Vec<RawBranchInfo>, ReaderError>(e),
            }),
    {
        let ghost d: Seq<u8> = self.buf();
        let ghost p_start: int = self.cur();
        let mut items: Vec<RawBranchInfo> = Vec::new();
        let mut i: u8 = 0;
        proof {
            assert(items.deep_view() =~~= Seq::<BranchInfoView>::empty());
            if let Ok((vs, q)) = p_branch_infos(d, p_start, count as nat) {
                assert(Seq::<BranchInfoView>::empty() + vs =~= vs);
            }
        }
        while i < count
            invariant
                i <= count,
                d == old(self).buf(),
                d == self.buf(),
                p_start == old(self).cur(),
                items@.len() == i as int,
                (match p_branch_infos(d, self.cur(), (count - i) as nat) {
                    Err(e) => p_branch_infos(d, p_start, count as nat) == Err::<
                        (Seq<BranchInfoView>, int),
                        ReaderError,
                    >(e),
                    Ok((vs, q)) => p_branch_infos(d, p_start, count as nat) == Ok::<
                        (Seq<BranchInfoView>, int),
                        ReaderError,
                    >((items.deep_view() + vs, q)),
                }),
            decreases count - i,
        {
            let ghost dv0: Seq<BranchInfoView> = items.deep_view();
            let item: RawBranchInfo = match self.read_branch_info() {
                Ok(v) => v,
                Err(e) => {
                    return Err(e);
                },
            };
            items.push(item);
            proof {
                assert(items@[i as int].deep_view() =~~= items@[i as int]@);
                assert(items.deep_view() =~~= dv0.push(items@[i as int]@));
                if let Ok((vs2, q)) = p_branch_infos(d, self.cur(), (count - i - 1) as nat) {
                    lemma_push_concat(dv0, items@[i as int]@, vs2);
                }
            }
            i = i + 1;
        }
        proof {
            if let Ok((vs, q)) = p_branch_infos(d, self.cur(), 0) {
                assert(items.deep_view() + vs =~= items.deep_view());
            }
        }
        Ok(items)
    }


    #[verifier::rlimit(60)]
    fn read_overlay_info(&mut self) -> (r: Result<RawOverlayInfo, ReaderError>)
        ensures
            final(self).buf() == old(self).buf(),
            (match p_overlay_info(old(self).buf(), old(self).cur()) {
                Ok((v, p)) => r is Ok && r.unwrap()@ == v && final(self).cur() == p,
                Err(e) => r == Err::<RawOverlayInfo, ReaderError>(e),
            }),
    {
        let overlay_type: u8 = match self.read_u8() {
            Ok(v) => v,
            Err(e) => {
                return Err(e);
            },
        };
        let replace: u8 = match self.read_u8() {
            Ok(v) => v,
            Err(e) => {
                return Err(e);
            },
        };
        let image_index: u16 = match self.read_u16() {
            Ok(v) => v,
            Err(e) => {
                return Err(e);
            },
        };
        // one reserved byte, skipped but not interpreted
        let _reserved: u8 = match self.read_u8() {
            Ok(v) => v,
            Err(e) => {
                return Err(e);
            },
        };
        let has_region: u8 = match self.read_u8() {
            Ok(v) => v,
            Err(e) => {
                return Err(e);
            },
        };
        let x_offset: i16 = match self.read_i16() {
            Ok(v) => v,
            Err(e) => {
                return Err(e);
            },
        };
        let y_offset: i16 = match self.read_i16() {
            Ok(v) => v,
            Err(e) => {
                return Err(e);
            },
        };
        let width: u16 = match self.read_u16() {
            Ok(v) => v,
            Err(e) => {
                return Err(e);
            },
        };
        let height: u16 = match self.read_u16() {
            Ok(v) => v,
            Err(e) => {
                return Err(e);
            },
        };
        let region_data: Option<Vec<u8>> = if has_region != 0 {
            let rsize: u32 = match self.read_u32() {
                Ok(v) => v,
                Err(e) => {
                    return Err(e);
                },
            };
            match self.read_bytes(rsize as usize) {
                Ok(v) => {
                    proof {
                        assert(v.deep_view() =~= v@);
                    }
                    Some(v)
                },
                Err(e) => {
                    return Err(e);
                },
            }
        } else {
            None
        };
        Ok(
            RawOverlayInfo {
                overlay_type,
                replace_enabled: replace != 0,
                image_index,
                x_offset,
                y_offset,
                width,
                height,
                region_data,
            },
        )
    }

    /// Read `count` overlays, one after another.
    fn read_overlay_infos(&mut self, count: u8) -> (r: Result<Vec<RawOverlayInfo>, ReaderError>)
        ensures
            final(self).buf() == old(self).buf(),
            (match p_overlay_infos(old(self).buf(), old(self).cur(), count as nat) {
                Ok((vs, p)) => r is Ok && r.unwrap().deep_view() == vs && final(self).cur() == p,
                Err(e) => r == Err::<Vec<RawOverlayInfo>, ReaderError>(e),
            }),
    {
        let ghost d: Seq<u8> = self.buf();
        let ghost p_start: int = self.cur();
        let mut items: Vec<RawOverlayInfo> = Vec::new();
        let mut i: u8 = 0;
        proof {
            assert(items.deep_view() =~~= Seq::<OverlayInfoView>::empty());
            if let Ok((vs, q)) = p_overlay_infos(d, p_start, count as nat) {
                assert(Seq::<OverlayInfoView>::empty() + vs =~= vs);
            }
        }
        while i < count
            invariant
                i <= count,
                d == old(self).buf(),
                d == self.buf(),
                p_start == old(self).cur(),
                items@.len() == i as int,
                (match p_overlay_infos(d, self.cur(), (count - i) as nat) {
                    Err(e) => p_overlay_infos(d, p_start, count as nat) == Err::<
                        (Seq<OverlayInfoView>, int),
                        ReaderError,
                    >(e),
                    Ok((vs, q)) => p_overlay_infos(d, p_start, count as nat) == Ok::<
                        (Seq<OverlayInfoView>, int),
                        ReaderError,
                    >((items.deep_view() + vs, q)),
                }),
            decreases count - i,
        {
            let ghost dv0: Seq<OverlayInfoView> = items.deep_view();
            let item: RawOverlayInfo = match self.read_overlay_info() {
                Ok(v) => v,
                Err(e) => {
                    return Err(e);
                },
            };
            items.push(item);
            proof {
                assert(items@[i as int].deep_view() =~~= items@[i as int]@);
                assert(items.deep_view() =~~= dv0.push(items@[i as int]@));
                if let Ok((vs2, q)) = p_overlay_infos(d, self.cur(), (count - i - 1) as nat) {
                    lemma_push_concat(dv0, items@[i as int]@, vs2);
                }
            }
            i = i + 1;
        }
        proof {
            if let Ok((vs, q)) = p_overlay_infos(d, self.cur(), 0) {
                assert(items.deep_view() + vs =~= items.deep_view());
            }
        }
        Ok(items)
    }


    fn read_frame_info(&mut self) -> (r: Result<RawFrameInfo, ReaderError>)
        ensures
            final(self).buf() == old(self).buf(),
            (match p_frame_info(old(self).buf(), old(self).cur()) {
                Ok((v, p)) => r is Ok && r.unwrap()@ == v && final(self).cur() == p,
                Err(e) => r == Err::<RawFrameInfo, ReaderError>(e),
            }),
    {
        let image_count: u16 = match self.read_u16() {
            Ok(v) => v,
            Err(e) => {
                return Err(e);
            },
        };
        let images: Vec<RawFrameImage> = match self.read_frame_images(image_count) {
            Ok(v) => v,
            Err(e) => {
                return Err(e);
            },
        };
        let sound_index: i16 = match self.read_i16() {
            Ok(v) => v,
            Err(e) => {
                return Err(e);
            },
        };
        let duration: u16 = match self.read_u16() {
            Ok(v) => v,
            Err(e) => {
                return Err(e);
            },
        };
        let exit_branch: i16 = match self.read_i16() {
            Ok(v) => v,
            Err(e) => {
                return Err(e);
            },
        };
        let branch_count: u8 = match self.read_u8() {
            Ok(v) => v,
            Err(e) => {
                return Err(e);
            },
        };
        let branches: Vec<RawBranchInfo> = match self.read_branch_infos(branch_count) {
            Ok(v) => v,
            Err(e) => {
                return Err(e);
            },
        };
        let overlay_count: u8 = match self.read_u8() {
            Ok(v) => v,
            Err(e) => {
                return Err(e);
            },
        };
        let overlays: Vec<RawOverlayInfo> = match self.read_overlay_infos(overlay_count) {
            Ok(v) => v,
            Err(e) => {
                return Err(e);
            },
        };
        Ok(RawFrameInfo { images, sound_index, duration, exit_branch, branches, overlays })
    }

    /// Read `count` frames, one after another.
    fn read_frame_infos(&mut self, count: u16) -> (r: Result<Vec<RawFrameInfo>, ReaderError>)
        ensures
            final(self).buf() == old(self).buf(),
            (match p_frame_infos(old(self).buf(), old(self).cur(), count as nat) {
                Ok((vs, p)) => r is Ok && r.unwrap().deep_view() == vs && final(self).cur() == p,
                Err(e) => r == Err::<Vec<RawFrameInfo>, ReaderError>(e),
            }),
    {
        let ghost d: Seq<u8> = self.buf();
        let ghost p_start: int = self.cur();
        let mut items: Vec<RawFrameInfo> = Vec::new();
        let mut i: u16 = 0;
        proof {
            assert(items.deep_view() =~~= Seq::<FrameInfoView>::empty());
            if let Ok((vs, q)) = p_frame_infos(d, p_start, count as nat) {
                assert(Seq::<FrameInfoView>::empty() + vs =~= vs);
            }
        }
        while i < count
            invariant
                i <= count,
                d == old(self).buf(),
                d == self.buf(),
                p_start == old(self).cur(),
                items@.len() == i as int,
                (match p_frame_infos(d, self.cur(), (count - i) as nat) {
                    Err(e) => p_frame_infos(d, p_start, count as nat) == Err::<
                        (Seq<FrameInfoView>, int),
                        ReaderError,
                    >(e),
                    Ok((vs, q)) => p_frame_infos(d, p_start, count as nat) == Ok::<
                        (Seq<FrameInfoView>, int),
                        ReaderError,
                    >((items.deep_view() + vs, q)),
                }),
            decreases count - i,
        {
            let ghost dv0: Seq<FrameInfoView> = items.deep_view();
            let item: RawFrameInfo = match self.read_frame_info() {
                Ok(v) => v,
                Err(e) => {
                    return Err(e);
                },
            };
            items.push(item);
            proof {
                assert(items@[i as int].deep_view() =~~= items@[i as int]@);
                assert(items.deep_view() =~~= dv0.push(items@[i as int]@));
                if let Ok((vs2, q)) = p_frame_infos(d, self.cur(), (count - i - 1) as nat) {
                    lemma_push_concat(dv0, items@[i as int]@, vs2);
                }
            }
            i = i + 1;
        }
        proof {
            if let Ok((vs, q)) = p_frame_infos(d, self.cur(), 0) {
                assert(items.deep_view() + vs =~= items.deep_view());
            }
        }
        Ok(items)
    }


    /// Read the animation record at the given absolute offset.
    pub fn read_animation_info(&mut self, offset: u32) -> (r: Result<RawAnimationInfo, ReaderError>)
        ensures
            final(self).buf() == old(self).buf(),
            (match p_animation_info(old(self).buf(), offset) {
                Ok((v, p)) => r is Ok && r.unwrap()@ == v && final(self).cur() == p,
                Err(e) => r == Err::<RawAnimationInfo, ReaderError>(e),
            }),
    {
        self.seek(offset as u64);
        let name: String = match self.read_string() {
            Ok(v) => v,
            Err(e) => {
                return Err(e);
            },
        };
        let transition_type: u8 = match self.read_u8() {
            Ok(v) => v,
            Err(e) => {
                return Err(e);
            },
        };
        let return_animation: String = match self.read_string() {
            Ok(v) => v,
            Err(e) => {
                return Err(e);
            },
        };
        let frame_count: u16 = match self.read_u16() {
            Ok(v) => v,
            Err(e) => {
                return Err(e);
            },
        };
        let frames: Vec<RawFrameInfo> = match self.read_frame_infos(frame_count) {
            Ok(v) => v,
            Err(e) => {
                return Err(e);
            },
        };
        Ok(RawAnimationInfo { name, transition_type, return_animation, frames })
    }

    fn read_image_entry(&mut self) -> (r: Result<ImageEntry, ReaderError>)
        ensures
            final(self).buf() == old(self).buf(),
            (match p_image_entry(old(self).buf(), old(self).cur()) {
                Ok((v, p)) => r is Ok && r.unwrap()@ == v && final(self).cur() == p,
                Err(e) => r == Err::<ImageEntry, ReaderError>(e),
            }),
    {
        let locator: Locator = match self.read_locator() {
            Ok(v) => v,
            Err(e) => {
                return Err(e);
            },
        };
        let checksum: u32 = match self.read_u32() {
            Ok(v) => v,
            Err(e) => {
                return Err(e);
            },
        };
        Ok(ImageEntry { locator, checksum })
    }

    /// Read `count` image entries, one after another.
    fn read_image_entries(&mut self, count: u32) -> (r: Result<Vec<ImageEntry>, ReaderError>)
        ensures
            final(self).buf() == old(self).buf(),
            (match p_image_entries(old(self).buf(), old(self).cur(), count as nat) {
                Ok((vs, p)) => r is Ok && r.unwrap().deep_view() == vs && final(self).cur() == p,
                Err(e) => r == Err::<Vec<ImageEntry>, ReaderError>(e),
            }),
    {
        let ghost d: Seq<u8> = self.buf();
        let ghost p_start: int = self.cur();
        let mut items: Vec<ImageEntry> = Vec::new();
        let mut i: u32 = 0;
        proof {
            assert(items.deep_view() =~~= Seq::<ImageEntryView>::empty());
            if let Ok((vs, q)) = p_image_entries(d, p_start, count as nat) {
                assert(Seq::<ImageEntryView>::empty() + vs =~= vs);
            }
        }
        while i < count
            invariant
                i <= count,
                d == old(self).buf(),
                d == self.buf(),
                p_start == old(self).cur(),
                items@.len() == i as int,
                (match p_image_entries(d, self.cur(), (count - i) as nat) {
                    Err(e) => p_image_entries(d, p_start, count as nat) == Err::<
                        (Seq<ImageEntryView>, int),
                        ReaderError,
                    >(e),
                    Ok((vs, q)) => p_image_entries(d, p_start, count as nat) == Ok::<
                        (Seq<ImageEntryView>, int),
                        ReaderError,
                    >((items.deep_view() + vs, q)),
                }),
            decreases count - i,
        {
            let ghost dv0: Seq<ImageEntryView> = items.deep_view();
            let item: ImageEntry = match self.read_image_entry() {
                Ok(v) => v,
                Err(e) => {
                    return Err(e);
                },
            };
            items.push(item);
            proof {
                assert(items@[i as int].deep_view() =~~= items@[i as int]@);
                assert(items.deep_view() =~~= dv0.push(items@[i as int]@));
                if let Ok((vs2, q)) = p_image_entries(d, self.cur(), (count - i - 1) as nat) {
                    lemma_push_concat(dv0, items@[i as int]@, vs2);
                }
            }
            i = i + 1;
        }
        proof {
            if let Ok((vs, q)) = p_image_entries(d, self.cur(), 0) {
                assert(items.deep_view() + vs =~= items.deep_view());
            }
        }
        Ok(items)
    }


    /// Read the image list at its locator: a count then that many entries.
    /// A zero-sized locator yields an empty list without reading.
    pub fn read_image_list(&mut self, locator: &Locator) -> (r: Result<Vec<ImageEntry>, ReaderError>)
        ensures
            final(self).buf() == old(self).buf(),
            (match p_image_list(old(self).buf(), *locator) {
                Ok((vs, p)) => r is Ok && r.unwrap().deep_view() == vs,
                Err(e) => r == Err::<Vec<ImageEntry>, ReaderError>(e),
            }),
    {
        if locator.size == 0 {
            let empty: Vec<ImageEntry> = Vec::new();
            proof {
                assert(empty.deep_view() =~= Seq::<ImageEntryView>::empty());
            }
            return Ok(empty);
        }
        self.seek(locator.offset as u64);
        let count: u32 = match self.read_u32() {
            Ok(v) => v,
            Err(e) => {
                return Err(e);
            },
        };
        self.read_image_entries(count)
    }

    /// Read the image record at the given absolute offset: dimensions, the
    /// compression flag, the payload (a sized blob when compressed, raw
    /// bottom-up rows otherwise) and the optional region blob.
    #[verifier::rlimit(60)]
    pub fn read_image_info(&mut self, offset: u32) -> (r: Result<RawImageInfo, ReaderError>)
        ensures
            final(self).buf() == old(self).buf(),
            (match p_image_info(old(self).buf(), offset) {
                Ok((v, p)) => r is Ok && r.unwrap()@ == v && final(self).cur() == p,
                Err(e) => r == Err::<RawImageInfo, ReaderError>(e),
            }),
    {
        self.seek(offset as u64);
        let _unknown: u8 = match self.read_u8() {
            Ok(v) => v,
            Err(e) => {
                return Err(e);
            },
        };
        let width: u16 = match self.read_u16() {
            Ok(v) => v,
            Err(e) => {
                return Err(e);
            },
        };
        let height: u16 = match self.read_u16() {
            Ok(v) => v,
            Err(e) => {
                return Err(e);
            },
        };
        let compressed: u8 = match self.read_u8() {
            Ok(v) => v,
            Err(e) => {
                return Err(e);
            },
        };
        let data: Vec<u8> = if compressed != 0 {
            let csize: u32 = match self.read_u32() {
                Ok(v) => v,
                Err(e) => {
                    return Err(e);
                },
            };
            match self.read_bytes(csize as usize) {
                Ok(v) => v,
                Err(e) => {
                    return Err(e);
                },
            }
        } else {
            // rows are stored padded to four-byte multiples
            let row_width: usize = ((width as usize + 3) / 4) * 4;
            proof {
                assert(row_width * height as int <= 0x10000 * 0xffff) by (nonlinear_arith)
                    requires
                        row_width <= 0x10000,
                        height <= 0xffff,
                ;
            }
            let data_size: usize = row_width * height as usize;
            match self.read_bytes(data_size) {
                Ok(v) => v,
                Err(e) => {
                    return Err(e);
                },
            }
        };
        let region_compressed_size: u32 = match self.read_u32() {
            Ok(v) => v,
            Err(e) => {
                return Err(e);
            },
        };
        let _region_uncompressed_size: u32 = match self.read_u32() {
            Ok(v) => v,
            Err(e) => {
                return Err(e);
            },
        };
        let region_data: Option<Vec<u8>> = if region_compressed_size > 0 {
            match self.read_bytes(region_compressed_size as usize) {
                Ok(v) => {
                    proof {
                        assert(v.deep_view() =~= v@);
                    }
                    Some(v)
                },
                Err(e) => {
                    return Err(e);
                },
            }
        } else {
            None
        };
        Ok(RawImageInfo { width, height, is_compressed: compressed != 0, data, region_data })
    }

    fn read_audio_entry(&mut self) -> (r: Result<AudioEntry, ReaderError>)
        ensures
            final(self).buf() == old(self).buf(),
            (match p_audio_entry(old(self).buf(), old(self).cur()) {
                Ok((v, p)) => r is Ok && r.unwrap()@ == v && final(self).cur() == p,
                Err(e) => r == Err::<AudioEntry, ReaderError>(e),
            }),
    {
        let locator: Locator = match self.read_locator() {
            Ok(v) => v,
            Err(e) => {
                return Err(e);
            },
        };
        let checksum: u32 = match self.read_u32() {
            Ok(v) => v,
            Err(e) => {
                return Err(e);
            },
        };
        Ok(AudioEntry { locator, checksum })
    }

    /// Read `count` audio entries, one after another.
    fn read_audio_entries(&mut self, count: u32) -> (r: Result<Vec<AudioEntry>, ReaderError>)
        ensures
            final(self).buf() == old(self).buf(),
            (match p_audio_entries(old(self).buf(), old(self).cur(), count as nat) {
                Ok((vs, p)) => r is Ok && r.unwrap().deep_view() == vs && final(self).cur() == p,
                Err(e) => r == Err::<Vec<AudioEntry>, ReaderError>(e),
            }),
    {
        let ghost d: Seq<u8> = self.buf();
        let ghost p_start: int = self.cur();
        let mut items: Vec<AudioEntry> = Vec::new();
        let mut i: u32 = 0;
        proof {
            assert(items.deep_view() =~~= Seq::<AudioEntryView>::empty());
            if let Ok((vs, q)) = p_audio_entries(d, p_start, count as nat) {
                assert(Seq::<AudioEntryView>::empty() + vs =~= vs);
            }
        }
        while i < count
            invariant
                i <= count,
                d == old(self).buf(),
                d == self.buf(),
                p_start == old(self).cur(),
                items@.len() == i as int,
                (match p_audio_entries(d, self.cur(), (count - i) as nat) {
                    Err(e) => p_audio_entries(d, p_start, count as nat) == Err::<
                        (Seq<AudioEntryView>, int),
                        ReaderError,
                    >(e),
                    Ok((vs, q)) => p_audio_entries(d, p_start, count as nat) == Ok::<
                        (Seq<AudioEntryView>, int),
                        ReaderError,
                    >((items.deep_view() + vs, q)),
                }),
            decreases count - i,
        {
            let ghost dv0: Seq<AudioEntryView> = items.deep_view();
            let item: AudioEntry = match self.read_audio_entry() {
                Ok(v) => v,
                Err(e) => {
                    return Err(e);
                },
            };
            items.push(item);
            proof {
                assert(items@[i as int].deep_view() =~~= items@[i as int]@);
                assert(items.deep_view() =~~= dv0.push(items@[i as int]@));
                if let Ok((vs2, q)) = p_audio_entries(d, self.cur(), (count - i - 1) as nat) {
                    lemma_push_concat(dv0, items@[i as int]@, vs2);
                }
            }
            i = i + 1;
        }
        proof {
            if let Ok((vs, q)) = p_audio_entries(d, self.cur(), 0) {
                assert(items.deep_view() + vs =~= items.deep_view());
            }
        }
        Ok(items)
    }


    /// Read the audio list at its locator: a count then that many entries.
    /// A zero-sized locator yields an empty list without reading.
    pub fn read_audio_list(&mut self, locator: &Locator) -> (r: Result<Vec<AudioEntry>, ReaderError>)
        ensures
            final(self).buf() == old(self).buf(),
            (match p_audio_list(old(self).buf(), *locator) {
                Ok((vs, p)) => r is Ok && r.unwrap().deep_view() == vs,
                Err(e) => r == Err::<Vec<AudioEntry>, ReaderError>(e),
            }),
    {
        if locator.size == 0 {
            let empty: Vec<AudioEntry> = Vec::new();
            proof {
                assert(empty.deep_view() =~= Seq::<AudioEntryView>::empty());
            }
            return Ok(empty);
        }
        self.seek(locator.offset as u64);
        let count: u32 = match self.read_u32() {
            Ok(v) => v,
            Err(e) => {
                return Err(e);
            },
        };
        self.read_audio_entries(count)
    }

    /// Read the raw WAV bytes named by an audio entry's locator.
    pub fn read_audio_data(&mut self, entry: &AudioEntry) -> (r: Result<Vec<u8>, ReaderError>)
        ensures
            final(self).buf() == old(self).buf(),
            (match p_audio_data(old(self).buf(), entry@) {
                Ok((v, p)) => r is Ok && r.unwrap()@ == v && final(self).cur() == p,
                Err(e) => r == Err::<Vec<u8>, ReaderError>(e),
            }),
    {
        self.seek(entry.locator.offset as u64);
        self.read_bytes(entry.locator.size as usize)
    }
}

} // verus!

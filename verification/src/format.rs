//! Spec-level description of the ACS container grammar.
//!
//! Each `p_<entity>` function is the mathematical parse of `<entity>` at
//! byte offset `p` of the file image `d`: it yields the parsed value and the
//! offset just past it, or the error a parser must report. All integers are
//! little-endian; strings are a `u32` character count followed by that many
//! UTF-16LE code units and a null terminator.

use vstd::prelude::*;
use crate::reader::{AcsHeader, Locator, ReaderError, ACS_SIGNATURE};
use crate::utf16::utf16_decode;

verus! {

/// The little-endian 16-bit value at offset `p`.
pub open spec fn le16_at(d: Seq<u8>, p: int) -> u16 {
    (d[p] + d[p + 1] * 0x100) as u16
}

/// The little-endian 32-bit value at offset `p`.
pub open spec fn le32_at(d: Seq<u8>, p: int) -> u32 {
    (d[p] + d[p + 1] * 0x100 + d[p + 2] * 0x10000 + d[p + 3] * 0x1000000) as u32
}

pub open spec fn p_u8(d: Seq<u8>, p: int) -> Result<(u8, int), ReaderError> {
    if p + 1 <= d.len() {
        Ok((d[p], p + 1))
    } else {
        Err(ReaderError::UnexpectedEof)
    }
}

pub open spec fn p_u16(d: Seq<u8>, p: int) -> Result<(u16, int), ReaderError> {
    if p + 2 <= d.len() {
        Ok((le16_at(d, p), p + 2))
    } else {
        Err(ReaderError::UnexpectedEof)
    }
}

pub open spec fn p_i16(d: Seq<u8>, p: int) -> Result<(i16, int), ReaderError> {
    if p + 2 <= d.len() {
        Ok((le16_at(d, p) as i16, p + 2))
    } else {
        Err(ReaderError::UnexpectedEof)
    }
}

pub open spec fn p_u32(d: Seq<u8>, p: int) -> Result<(u32, int), ReaderError> {
    if p + 4 <= d.len() {
        Ok((le32_at(d, p), p + 4))
    } else {
        Err(ReaderError::UnexpectedEof)
    }
}

pub open spec fn p_i32(d: Seq<u8>, p: int) -> Result<(i32, int), ReaderError> {
    if p + 4 <= d.len() {
        Ok((le32_at(d, p) as i32, p + 4))
    } else {
        Err(ReaderError::UnexpectedEof)
    }
}

pub open spec fn p_bytes(d: Seq<u8>, p: int, n: int) -> Result<(Seq<u8>, int), ReaderError> {
    if p + n <= d.len() {
        Ok((d.subrange(p, p + n), p + n))
    } else {
        Err(ReaderError::UnexpectedEof)
    }
}

/// The `n` UTF-16 code units starting at offset `p`.
pub open spec fn utf16_units(d: Seq<u8>, p: int, n: nat) -> Seq<u16> {
    Seq::new(n, |i: int| le16_at(d, p + 2 * i))
}

/// A length-prefixed UTF-16LE string: `u32` character count, that many code
/// units, and a null terminator that is consumed but not part of the value.
/// A zero count consumes only the count itself.
pub open spec fn p_string(d: Seq<u8>, p: int) -> Result<(Seq<char>, int), ReaderError> {
    match p_u32(d, p) {
        Err(e) => Err(e),
        Ok((n, p1)) => if n == 0 {
            Ok((Seq::<char>::empty(), p1))
        } else if p1 + (n + 1) * 2 <= d.len() {
            match utf16_decode(utf16_units(d, p1, n as nat)) {
                Some(cs) => Ok((cs, p1 + (n + 1) * 2)),
                None => Err(ReaderError::InvalidUtf16),
            }
        } else {
            Err(ReaderError::UnexpectedEof)
        },
    }
}

/// `n` strings, one after another.
pub open spec fn p_strings(d: Seq<u8>, p: int, n: nat) -> Result<(Seq<Seq<char>>, int), ReaderError>
    decreases n,
{
    if n == 0 {
        Ok((Seq::empty(), p))
    } else {
        match p_string(d, p) {
            Err(e) => Err(e),
            Ok((v, p1)) => match p_strings(d, p1, (n - 1) as nat) {
                Err(e) => Err(e),
                Ok((vs, p2)) => Ok((seq![v] + vs, p2)),
            },
        }
    }
}

/// An `(offset, size)` pair naming an absolute byte range of the file.
pub open spec fn p_locator(d: Seq<u8>, p: int) -> Result<(Locator, int), ReaderError> {
    match p_u32(d, p) {
        Err(e) => Err(e),
        Ok((offset, p1)) => match p_u32(d, p1) {
            Err(e) => Err(e),
            Ok((size, p2)) => Ok((Locator { offset, size }, p2)),
        },
    }
}

/// The file header: the signature followed by the four section locators in
/// the order character, animation, image, audio. A wrong signature is
/// reported without reading past the first four bytes.
pub open spec fn p_header(d: Seq<u8>, p: int) -> Result<(AcsHeader, int), ReaderError> {
    match p_u32(d, p) {
        Err(e) => Err(e),
        Ok((signature, p1)) => if signature != ACS_SIGNATURE {
            Err(ReaderError::InvalidSignature(signature))
        } else {
            match p_locator(d, p1) {
                Err(e) => Err(e),
                Ok((character_info, p2)) => match p_locator(d, p2) {
                    Err(e) => Err(e),
                    Ok((animation_info, p3)) => match p_locator(d, p3) {
                        Err(e) => Err(e),
                        Ok((image_info, p4)) => match p_locator(d, p4) {
                            Err(e) => Err(e),
                            Ok((audio_info, p5)) => Ok(
                                (
                                    AcsHeader {
                                        signature,
                                        character_info,
                                        animation_info,
                                        image_info,
                                        audio_info,
                                    },
                                    p5,
                                ),
                            ),
                        },
                    },
                },
            }
        },
    }
}

/// Concatenating a pushed element equals prepending it to the tail.
pub proof fn lemma_push_concat<T>(a: Seq<T>, b: T, c: Seq<T>)
    ensures
        a.push(b) + c == a + (seq![b] + c),
{
    assert(a.push(b) + c =~= a + (seq![b] + c));
}

/// A per-language bundle of display strings.
pub struct LocalizedInfoView {
    pub lang_id: u16,
    pub name: Seq<char>,
    pub description: Seq<char>,
    pub extra_data: Seq<char>,
}

pub open spec fn p_localized_info(d: Seq<u8>, p: int) -> Result<
    (LocalizedInfoView, int),
    ReaderError,
> {
    match p_u16(d, p) {
        Err(e) => Err(e),
        Ok((lang_id, p1)) => match p_string(d, p1) {
            Err(e) => Err(e),
            Ok((name, p2)) => match p_string(d, p2) {
                Err(e) => Err(e),
                Ok((description, p3)) => match p_string(d, p3) {
                    Err(e) => Err(e),
                    Ok((extra_data, p4)) => Ok(
                        (LocalizedInfoView { lang_id, name, description, extra_data }, p4),
                    ),
                },
            },
        },
    }
}

/// `n` localized-info records, one after another.
pub open spec fn p_localized_items(d: Seq<u8>, p: int, n: nat) -> Result<(Seq<LocalizedInfoView>, int), ReaderError>
    decreases n,
{
    if n == 0 {
        Ok((Seq::empty(), p))
    } else {
        match p_localized_info(d, p) {
            Err(e) => Err(e),
            Ok((v, p1)) => match p_localized_items(d, p1, (n - 1) as nat) {
                Err(e) => Err(e),
                Ok((vs, p2)) => Ok((seq![v] + vs, p2)),
            },
        }
    }
}

/// The localized-info list at its locator: a `u16` count then that many
/// records. A zero-sized locator means an empty list, read nowhere.
pub open spec fn p_localized_list(d: Seq<u8>, loc: Locator) -> Result<
    (Seq<LocalizedInfoView>, int),
    ReaderError,
> {
    if loc.size == 0 {
        Ok((Seq::empty(), loc.offset as int))
    } else {
        match p_u16(d, loc.offset as int) {
            Err(e) => Err(e),
            Ok((count, p1)) => p_localized_items(d, p1, count as nat),
        }
    }
}

/// The optional extra block of a voice descriptor.
pub struct VoiceExtraView {
    pub lang_id: u16,
    pub lang_dialect: Seq<char>,
    pub gender: u16,
    pub age: u16,
    pub style: Seq<char>,
}

/// A voice descriptor: engine and mode identifiers, speed, pitch, and the
/// optional extra block gated by its own flag byte.
pub struct VoiceInfoView {
    pub tts_engine_id: Seq<u8>,
    pub tts_mode_id: Seq<u8>,
    pub speed: u32,
    pub pitch: u16,
    pub extra_data_exists: bool,
    pub extra_data: Option<VoiceExtraView>,
}

pub open spec fn p_voice_extra(d: Seq<u8>, p: int) -> Result<(VoiceExtraView, int), ReaderError> {
    match p_u16(d, p) {
        Err(e) => Err(e),
        Ok((lang_id, p1)) => match p_string(d, p1) {
            Err(e) => Err(e),
            Ok((lang_dialect, p2)) => match p_u16(d, p2) {
                Err(e) => Err(e),
                Ok((gender, p3)) => match p_u16(d, p3) {
                    Err(e) => Err(e),
                    Ok((age, p4)) => match p_string(d, p4) {
                        Err(e) => Err(e),
                        Ok((style, p5)) => Ok(
                            (VoiceExtraView { lang_id, lang_dialect, gender, age, style }, p5),
                        ),
                    },
                },
            },
        },
    }
}

pub open spec fn p_voice_info(d: Seq<u8>, p: int) -> Result<(VoiceInfoView, int), ReaderError> {
    match p_bytes(d, p, 16) {
        Err(e) => Err(e),
        Ok((tts_engine_id, p1)) => match p_bytes(d, p1, 16) {
            Err(e) => Err(e),
            Ok((tts_mode_id, p2)) => match p_u32(d, p2) {
                Err(e) => Err(e),
                Ok((speed, p3)) => match p_u16(d, p3) {
                    Err(e) => Err(e),
                    Ok((pitch, p4)) => match p_u8(d, p4) {
                        Err(e) => Err(e),
                        Ok((flag, p5)) => if flag != 0 {
                            match p_voice_extra(d, p5) {
                                Err(e) => Err(e),
                                Ok((extra, p6)) => Ok(
                                    (
                                        VoiceInfoView {
                                            tts_engine_id,
                                            tts_mode_id,
                                            speed,
                                            pitch,
                                            extra_data_exists: true,
                                            extra_data: Some(extra),
                                        },
                                        p6,
                                    ),
                                ),
                            }
                        } else {
                            Ok(
                                (
                                    VoiceInfoView {
                                        tts_engine_id,
                                        tts_mode_id,
                                        speed,
                                        pitch,
                                        extra_data_exists: false,
                                        extra_data: None,
                                    },
                                    p5,
                                ),
                            )
                        },
                    },
                },
            },
        },
    }
}

/// A word-balloon descriptor. Colors are stored on disk as B,G,R,reserved
/// and normalized here to R,G,B.
pub struct BalloonInfoView {
    pub num_lines: u8,
    pub chars_per_line: u8,
    pub fg_color: Seq<u8>,
    pub bg_color: Seq<u8>,
    pub border_color: Seq<u8>,
    pub font_name: Seq<char>,
    pub font_height: i32,
    pub font_weight: i32,
    pub font_italic: bool,
    pub font_charset: u8,
}

/// A color quad at `p`, stored B,G,R,reserved, normalized to R,G,B.
pub open spec fn rgb_at(d: Seq<u8>, p: int) -> Seq<u8> {
    seq![d[p + 2], d[p + 1], d[p]]
}

pub open spec fn p_balloon_info(d: Seq<u8>, p: int) -> Result<(BalloonInfoView, int), ReaderError> {
    if p + 14 <= d.len() {
        match p_string(d, p + 14) {
            Err(e) => Err(e),
            Ok((font_name, p1)) => match p_i32(d, p1) {
                Err(e) => Err(e),
                Ok((font_height, p2)) => match p_i32(d, p2) {
                    Err(e) => Err(e),
                    Ok((font_weight, p3)) => match p_u8(d, p3) {
                        Err(e) => Err(e),
                        Ok((italic, p4)) => match p_u8(d, p4) {
                            Err(e) => Err(e),
                            Ok((font_charset, p5)) => Ok(
                                (
                                    BalloonInfoView {
                                        num_lines: d[p],
                                        chars_per_line: d[p + 1],
                                        fg_color: rgb_at(d, p + 2),
                                        bg_color: rgb_at(d, p + 6),
                                        border_color: rgb_at(d, p + 10),
                                        font_name,
                                        font_height,
                                        font_weight,
                                        font_italic: italic != 0,
                                        font_charset,
                                    },
                                    p5,
                                ),
                            ),
                        },
                    },
                },
            },
        }
    } else {
        Err(ReaderError::UnexpectedEof)
    }
}

/// The two tray-icon bitmaps, each a `u32` size and that many bytes.
pub struct TrayIconView {
    pub mono_bitmap: Seq<u8>,
    pub color_bitmap: Seq<u8>,
}

pub open spec fn p_tray_icon(d: Seq<u8>, p: int) -> Result<(TrayIconView, int), ReaderError> {
    match p_u32(d, p) {
        Err(e) => Err(e),
        Ok((mono_size, p1)) => match p_bytes(d, p1, mono_size as int) {
            Err(e) => Err(e),
            Ok((mono_bitmap, p2)) => match p_u32(d, p2) {
                Err(e) => Err(e),
                Ok((color_size, p3)) => match p_bytes(d, p3, color_size as int) {
                    Err(e) => Err(e),
                    Ok((color_bitmap, p4)) => Ok((TrayIconView { mono_bitmap, color_bitmap }, p4)),
                },
            },
        },
    }
}

/// A named grouping of animation names.
pub struct StateInfoView {
    pub name: Seq<char>,
    pub animations: Seq<Seq<char>>,
}

pub open spec fn p_state_info(d: Seq<u8>, p: int) -> Result<(StateInfoView, int), ReaderError> {
    match p_string(d, p) {
        Err(e) => Err(e),
        Ok((name, p1)) => match p_u16(d, p1) {
            Err(e) => Err(e),
            Ok((count, p2)) => match p_strings(d, p2, count as nat) {
                Err(e) => Err(e),
                Ok((animations, p3)) => Ok((StateInfoView { name, animations }, p3)),
            },
        },
    }
}

/// `n` state records, one after another.
pub open spec fn p_state_infos(d: Seq<u8>, p: int, n: nat) -> Result<(Seq<StateInfoView>, int), ReaderError>
    decreases n,
{
    if n == 0 {
        Ok((Seq::empty(), p))
    } else {
        match p_state_info(d, p) {
            Err(e) => Err(e),
            Ok((v, p1)) => match p_state_infos(d, p1, (n - 1) as nat) {
                Err(e) => Err(e),
                Ok((vs, p2)) => Ok((seq![v] + vs, p2)),
            },
        }
    }
}

/// One palette entry: a B,G,R,reserved quad normalized to R,G,B.
pub open spec fn p_palette_entry(d: Seq<u8>, p: int) -> Result<(Seq<u8>, int), ReaderError> {
    if p + 4 <= d.len() {
        Ok((rgb_at(d, p), p + 4))
    } else {
        Err(ReaderError::UnexpectedEof)
    }
}

/// `n` palette entries, one after another.
pub open spec fn p_palette_entries(d: Seq<u8>, p: int, n: nat) -> Result<(Seq<Seq<u8>>, int), ReaderError>
    decreases n,
{
    if n == 0 {
        Ok((Seq::empty(), p))
    } else {
        match p_palette_entry(d, p) {
            Err(e) => Err(e),
            Ok((v, p1)) => match p_palette_entries(d, p1, (n - 1) as nat) {
                Err(e) => Err(e),
                Ok((vs, p2)) => Ok((seq![v] + vs, p2)),
            },
        }
    }
}

/// The character-info block.
pub struct CharacterInfoView {
    pub minor_version: u16,
    pub major_version: u16,
    pub localized_info: Seq<LocalizedInfoView>,
    pub guid: Seq<u8>,
    pub width: u16,
    pub height: u16,
    pub transparent_color: u8,
    pub flags: u32,
    pub anim_set_major_version: u16,
    pub anim_set_minor_version: u16,
    pub voice_info: Option<VoiceInfoView>,
    pub balloon_info: BalloonInfoView,
    pub palette: Seq<Seq<u8>>,
    pub tray_icon: Option<TrayIconView>,
    pub states: Seq<StateInfoView>,
}

/// The character-info block at absolute offset `off`: the fixed fields, the
/// voice descriptor if and only if bit 5 of `flags` is set, the balloon
/// descriptor and palette, the tray icon behind its own flag byte, the state
/// list, and finally the localized-info list at its own locator.
pub open spec fn p_character_info(d: Seq<u8>, off: u32) -> Result<
    (CharacterInfoView, int),
    ReaderError,
> {
    let p: int = off as int;
    if p + 37 <= d.len() {
        let minor_version = le16_at(d, p);
        let major_version = le16_at(d, p + 2);
        let li_loc = Locator { offset: le32_at(d, p + 4), size: le32_at(d, p + 8) };
        let guid = d.subrange(p + 12, p + 28);
        let width = le16_at(d, p + 28);
        let height = le16_at(d, p + 30);
        let transparent_color = d[p + 32];
        let flags = le32_at(d, p + 33);
        if p + 41 <= d.len() {
            let anim_set_major_version = le16_at(d, p + 37);
            let anim_set_minor_version = le16_at(d, p + 39);
            let p0: int = p + 41;
            let voice: Result<(Option<VoiceInfoView>, int), ReaderError> = if flags & 0x20 != 0 {
                match p_voice_info(d, p0) {
                    Err(e) => Err(e),
                    Ok((v, p1)) => Ok((Some(v), p1)),
                }
            } else {
                Ok((None, p0))
            };
            match voice {
                Err(e) => Err(e),
                Ok((voice_info, p1)) => match p_balloon_info(d, p1) {
                    Err(e) => Err(e),
                    Ok((balloon_info, p2)) => match p_u32(d, p2) {
                        Err(e) => Err(e),
                        Ok((pal_count, p3)) => match p_palette_entries(
                            d,
                            p3,
                            pal_count as nat,
                        ) {
                            Err(e) => Err(e),
                            Ok((palette, p4)) => match p_u8(d, p4) {
                                Err(e) => Err(e),
                                Ok((tray_flag, p5)) => {
                                    let tray: Result<(Option<TrayIconView>, int), ReaderError> = if tray_flag != 0 {
                                        match p_tray_icon(d, p5) {
                                            Err(e) => Err(e),
                                            Ok((t, p6)) => Ok((Some(t), p6)),
                                        }
                                    } else {
                                        Ok((None, p5))
                                    };
                                    match tray {
                                        Err(e) => Err(e),
                                        Ok((tray_icon, p6)) => match p_u16(d, p6) {
                                            Err(e) => Err(e),
                                            Ok((state_count, p7)) => match p_state_infos(
                                                d,
                                                p7,
                                                state_count as nat,
                                            ) {
                                                Err(e) => Err(e),
                                                Ok((states, p8)) => match p_localized_list(
                                                    d,
                                                    li_loc,
                                                ) {
                                                    Err(e) => Err(e),
                                                    Ok((localized_info, p9)) => Ok(
                                                        (
                                                            CharacterInfoView {
                                                                minor_version,
                                                                major_version,
                                                                localized_info,
                                                                guid,
                                                                width,
                                                                height,
                                                                transparent_color,
                                                                flags,
                                                                anim_set_major_version,
                                                                anim_set_minor_version,
                                                                voice_info,
                                                                balloon_info,
                                                                palette,
                                                                tray_icon,
                                                                states,
                                                            },
                                                            p9,
                                                        ),
                                                    ),
                                                },
                                            },
                                        },
                                    }
                                },
                            },
                        },
                    },
                },
            }
        } else {
            Err(ReaderError::UnexpectedEof)
        }
    } else {
        Err(ReaderError::UnexpectedEof)
    }
}

/// A named animation and the locator of its record.
pub struct AnimationEntryView {
    pub name: Seq<char>,
    pub locator: Locator,
}

pub open spec fn p_animation_entry(d: Seq<u8>, p: int) -> Result<
    (AnimationEntryView, int),
    ReaderError,
> {
    match p_string(d, p) {
        Err(e) => Err(e),
        Ok((name, p1)) => match p_locator(d, p1) {
            Err(e) => Err(e),
            Ok((locator, p2)) => Ok((AnimationEntryView { name, locator }, p2)),
        },
    }
}

/// `n` animation entries, one after another.
pub open spec fn p_animation_entries(d: Seq<u8>, p: int, n: nat) -> Result<(Seq<AnimationEntryView>, int), ReaderError>
    decreases n,
{
    if n == 0 {
        Ok((Seq::empty(), p))
    } else {
        match p_animation_entry(d, p) {
            Err(e) => Err(e),
            Ok((v, p1)) => match p_animation_entries(d, p1, (n - 1) as nat) {
                Err(e) => Err(e),
                Ok((vs, p2)) => Ok((seq![v] + vs, p2)),
            },
        }
    }
}

/// The animation list at its locator: a `u32` count then that many entries.
/// A zero-sized locator means an empty list, read nowhere.
pub open spec fn p_animation_list(d: Seq<u8>, loc: Locator) -> Result<
    (Seq<AnimationEntryView>, int),
    ReaderError,
> {
    if loc.size == 0 {
        Ok((Seq::empty(), loc.offset as int))
    } else {
        match p_u32(d, loc.offset as int) {
            Err(e) => Err(e),
            Ok((count, p1)) => p_animation_entries(d, p1, count as nat),
        }
    }
}

/// One image of a frame: an index into the image list and its placement.
pub struct FrameImageView {
    pub image_index: u32,
    pub x_offset: i16,
    pub y_offset: i16,
}

pub open spec fn p_frame_image(d: Seq<u8>, p: int) -> Result<(FrameImageView, int), ReaderError> {
    match p_u32(d, p) {
        Err(e) => Err(e),
        Ok((image_index, p1)) => match p_i16(d, p1) {
            Err(e) => Err(e),
            Ok((x_offset, p2)) => match p_i16(d, p2) {
                Err(e) => Err(e),
                Ok((y_offset, p3)) => Ok((FrameImageView { image_index, x_offset, y_offset }, p3)),
            },
        },
    }
}

/// `n` frame images, one after another.
pub open spec fn p_frame_images(d: Seq<u8>, p: int, n: nat) -> Result<(Seq<FrameImageView>, int), ReaderError>
    decreases n,
{
    if n == 0 {
        Ok((Seq::empty(), p))
    } else {
        match p_frame_image(d, p) {
            Err(e) => Err(e),
            Ok((v, p1)) => match p_frame_images(d, p1, (n - 1) as nat) {
                Err(e) => Err(e),
                Ok((vs, p2)) => Ok((seq![v] + vs, p2)),
            },
        }
    }
}

/// A branching rule: a target frame and its probability.
pub struct BranchInfoView {
    pub frame_index: u16,
    pub probability: u16,
}

pub open spec fn p_branch_info(d: Seq<u8>, p: int) -> Result<(BranchInfoView, int), ReaderError> {
    match p_u16(d, p) {
        Err(e) => Err(e),
        Ok((frame_index, p1)) => match p_u16(d, p1) {
            Err(e) => Err(e),
            Ok((probability, p2)) => Ok((BranchInfoView { frame_index, probability }, p2)),
        },
    }
}

/// `n` branch rules, one after another.
pub open spec fn p_branch_infos(d: Seq<u8>, p: int, n: nat) -> Result<(Seq<BranchInfoView>, int), ReaderError>
    decreases n,
{
    if n == 0 {
        Ok((Seq::empty(), p))
    } else {
        match p_branch_info(d, p) {
            Err(e) => Err(e),
            Ok((v, p1)) => match p_branch_infos(d, p1, (n - 1) as nat) {
                Err(e) => Err(e),
                Ok((vs, p2)) => Ok((seq![v] + vs, p2)),
            },
        }
    }
}

/// A mouth overlay: between the image index and the region flag lies one
/// reserved byte that is skipped but not interpreted.
pub struct OverlayInfoView {
    pub overlay_type: u8,
    pub replace_enabled: bool,
    pub image_index: u16,
    pub x_offset: i16,
    pub y_offset: i16,
    pub width: u16,
    pub height: u16,
    pub region_data: Option<Seq<u8>>,
}

pub open spec fn p_overlay_info(d: Seq<u8>, p: int) -> Result<(OverlayInfoView, int), ReaderError> {
    match p_u8(d, p) {
        Err(e) => Err(e),
        Ok((overlay_type, p1)) => match p_u8(d, p1) {
            Err(e) => Err(e),
            Ok((replace, p2)) => match p_u16(d, p2) {
                Err(e) => Err(e),
                Ok((image_index, p3)) => match p_u8(d, p3) {
                    // the reserved byte
                    Err(e) => Err(e),
                    Ok((_reserved, p4)) => match p_u8(d, p4) {
                        Err(e) => Err(e),
                        Ok((has_region, p5)) => match p_i16(d, p5) {
                            Err(e) => Err(e),
                            Ok((x_offset, p6)) => match p_i16(d, p6) {
                                Err(e) => Err(e),
                                Ok((y_offset, p7)) => match p_u16(d, p7) {
                                    Err(e) => Err(e),
                                    Ok((width, p8)) => match p_u16(d, p8) {
                                        Err(e) => Err(e),
                                        Ok((height, p9)) => if has_region != 0 {
                                            match p_u32(d, p9) {
                                                Err(e) => Err(e),
                                                Ok((rsize, p10)) => match p_bytes(
                                                    d,
                                                    p10,
                                                    rsize as int,
                                                ) {
                                                    Err(e) => Err(e),
                                                    Ok((region, p11)) => Ok(
                                                        (
                                                            OverlayInfoView {
                                                                overlay_type,
                                                                replace_enabled: replace != 0,
                                                                image_index,
                                                                x_offset,
                                                                y_offset,
                                                                width,
                                                                height,
                                                                region_data: Some(region),
                                                            },
                                                            p11,
                                                        ),
                                                    ),
                                                },
                                            }
                                        } else {
                                            Ok(
                                                (
                                                    OverlayInfoView {
                                                        overlay_type,
                                                        replace_enabled: replace != 0,
                                                        image_index,
                                                        x_offset,
                                                        y_offset,
                                                        width,
                                                        height,
                                                        region_data: None,
                                                    },
                                                    p9,
                                                ),
                                            )
                                        },
                                    },
                                },
                            },
                        },
                    },
                },
            },
        },
    }
}

/// `n` overlays, one after another.
pub open spec fn p_overlay_infos(d: Seq<u8>, p: int, n: nat) -> Result<(Seq<OverlayInfoView>, int), ReaderError>
    decreases n,
{
    if n == 0 {
        Ok((Seq::empty(), p))
    } else {
        match p_overlay_info(d, p) {
            Err(e) => Err(e),
            Ok((v, p1)) => match p_overlay_infos(d, p1, (n - 1) as nat) {
                Err(e) => Err(e),
                Ok((vs, p2)) => Ok((seq![v] + vs, p2)),
            },
        }
    }
}

/// One animation frame: its images, sound and duration, exit branch, branch
/// rules and overlays.
pub struct FrameInfoView {
    pub images: Seq<FrameImageView>,
    pub sound_index: i16,
    pub duration: u16,
    pub exit_branch: i16,
    pub branches: Seq<BranchInfoView>,
    pub overlays: Seq<OverlayInfoView>,
}

pub open spec fn p_frame_info(d: Seq<u8>, p: int) -> Result<(FrameInfoView, int), ReaderError> {
    match p_u16(d, p) {
        Err(e) => Err(e),
        Ok((image_count, p1)) => match p_frame_images(d, p1, image_count as nat) {
            Err(e) => Err(e),
            Ok((images, p2)) => match p_i16(d, p2) {
                Err(e) => Err(e),
                Ok((sound_index, p3)) => match p_u16(d, p3) {
                    Err(e) => Err(e),
                    Ok((duration, p4)) => match p_i16(d, p4) {
                        Err(e) => Err(e),
                        Ok((exit_branch, p5)) => match p_u8(d, p5) {
                            Err(e) => Err(e),
                            Ok((branch_count, p6)) => match p_branch_infos(
                                d,
                                p6,
                                branch_count as nat,
                            ) {
                                Err(e) => Err(e),
                                Ok((branches, p7)) => match p_u8(d, p7) {
                                    Err(e) => Err(e),
                                    Ok((overlay_count, p8)) => match p_overlay_infos(
                                        d,
                                        p8,
                                        overlay_count as nat,
                                    ) {
                                        Err(e) => Err(e),
                                        Ok((overlays, p9)) => Ok(
                                            (
                                                FrameInfoView {
                                                    images,
                                                    sound_index,
                                                    duration,
                                                    exit_branch,
                                                    branches,
                                                    overlays,
                                                },
                                                p9,
                                            ),
                                        ),
                                    },
                                },
                            },
                        },
                    },
                },
            },
        },
    }
}

/// `n` frames, one after another.
pub open spec fn p_frame_infos(d: Seq<u8>, p: int, n: nat) -> Result<(Seq<FrameInfoView>, int), ReaderError>
    decreases n,
{
    if n == 0 {
        Ok((Seq::empty(), p))
    } else {
        match p_frame_info(d, p) {
            Err(e) => Err(e),
            Ok((v, p1)) => match p_frame_infos(d, p1, (n - 1) as nat) {
                Err(e) => Err(e),
                Ok((vs, p2)) => Ok((seq![v] + vs, p2)),
            },
        }
    }
}

/// An animation record: name, transition type, return animation and frames.
pub struct AnimationInfoView {
    pub name: Seq<char>,
    pub transition_type: u8,
    pub return_animation: Seq<char>,
    pub frames: Seq<FrameInfoView>,
}

/// The animation record at absolute offset `off`.
pub open spec fn p_animation_info(d: Seq<u8>, off: u32) -> Result<
    (AnimationInfoView, int),
    ReaderError,
> {
    match p_string(d, off as int) {
        Err(e) => Err(e),
        Ok((name, p1)) => match p_u8(d, p1) {
            Err(e) => Err(e),
            Ok((transition_type, p2)) => match p_string(d, p2) {
                Err(e) => Err(e),
                Ok((return_animation, p3)) => match p_u16(d, p3) {
                    Err(e) => Err(e),
                    Ok((frame_count, p4)) => match p_frame_infos(d, p4, frame_count as nat) {
                        Err(e) => Err(e),
                        Ok((frames, p5)) => Ok(
                            (
                                AnimationInfoView {
                                    name,
                                    transition_type,
                                    return_animation,
                                    frames,
                                },
                                p5,
                            ),
                        ),
                    },
                },
            },
        },
    }
}

/// An image-list entry: the record's locator and a checksum.
pub struct ImageEntryView {
    pub locator: Locator,
    pub checksum: u32,
}

pub open spec fn p_image_entry(d: Seq<u8>, p: int) -> Result<(ImageEntryView, int), ReaderError> {
    match p_locator(d, p) {
        Err(e) => Err(e),
        Ok((locator, p1)) => match p_u32(d, p1) {
            Err(e) => Err(e),
            Ok((checksum, p2)) => Ok((ImageEntryView { locator, checksum }, p2)),
        },
    }
}

/// `n` image entries, one after another.
pub open spec fn p_image_entries(d: Seq<u8>, p: int, n: nat) -> Result<(Seq<ImageEntryView>, int), ReaderError>
    decreases n,
{
    if n == 0 {
        Ok((Seq::empty(), p))
    } else {
        match p_image_entry(d, p) {
            Err(e) => Err(e),
            Ok((v, p1)) => match p_image_entries(d, p1, (n - 1) as nat) {
                Err(e) => Err(e),
                Ok((vs, p2)) => Ok((seq![v] + vs, p2)),
            },
        }
    }
}

/// The image list at its locator: a `u32` count then that many entries.
/// A zero-sized locator means an empty list, read nowhere.
pub open spec fn p_image_list(d: Seq<u8>, loc: Locator) -> Result<
    (Seq<ImageEntryView>, int),
    ReaderError,
> {
    if loc.size == 0 {
        Ok((Seq::empty(), loc.offset as int))
    } else {
        match p_u32(d, loc.offset as int) {
            Err(e) => Err(e),
            Ok((count, p1)) => p_image_entries(d, p1, count as nat),
        }
    }
}

/// The row stride of stored pixel data: the width rounded up to a multiple
/// of four bytes.
pub open spec fn padded_row_width(w: nat) -> nat {
    ((w + 3) / 4) * 4
}

/// An image record: dimensions, the compression flag, the pixel payload
/// (a `u32`-sized blob when compressed, `padded_row_width * height` raw
/// bytes otherwise), and the optional region blob after its two sizes.
pub struct ImageInfoView {
    pub width: u16,
    pub height: u16,
    pub is_compressed: bool,
    pub data: Seq<u8>,
    pub region_data: Option<Seq<u8>>,
}

/// The image record at absolute offset `off`. The leading reserved byte is
/// skipped without interpretation.
pub open spec fn p_image_info(d: Seq<u8>, off: u32) -> Result<(ImageInfoView, int), ReaderError> {
    match p_u8(d, off as int) {
        Err(e) => Err(e),
        Ok((_unknown, p1)) => match p_u16(d, p1) {
            Err(e) => Err(e),
            Ok((width, p2)) => match p_u16(d, p2) {
                Err(e) => Err(e),
                Ok((height, p3)) => match p_u8(d, p3) {
                    Err(e) => Err(e),
                    Ok((compressed, p4)) => {
                        let payload: Result<(Seq<u8>, int), ReaderError> = if compressed != 0 {
                            match p_u32(d, p4) {
                                Err(e) => Err(e),
                                Ok((csize, p5)) => p_bytes(d, p5, csize as int),
                            }
                        } else {
                            p_bytes(
                                d,
                                p4,
                                padded_row_width(width as nat) * height as int,
                            )
                        };
                        match payload {
                            Err(e) => Err(e),
                            Ok((data, p6)) => match p_u32(d, p6) {
                                Err(e) => Err(e),
                                Ok((region_compressed_size, p7)) => match p_u32(d, p7) {
                                    Err(e) => Err(e),
                                    Ok((_region_uncompressed_size, p8)) => if region_compressed_size
                                        > 0 {
                                        match p_bytes(d, p8, region_compressed_size as int) {
                                            Err(e) => Err(e),
                                            Ok((region, p9)) => Ok(
                                                (
                                                    ImageInfoView {
                                                        width,
                                                        height,
                                                        is_compressed: compressed != 0,
                                                        data,
                                                        region_data: Some(region),
                                                    },
                                                    p9,
                                                ),
                                            ),
                                        }
                                    } else {
                                        Ok(
                                            (
                                                ImageInfoView {
                                                    width,
                                                    height,
                                                    is_compressed: compressed != 0,
                                                    data,
                                                    region_data: None,
                                                },
                                                p8,
                                            ),
                                        )
                                    },
                                },
                            },
                        }
                    },
                },
            },
        },
    }
}

/// An audio-list entry: the WAV blob's locator and a checksum.
pub struct AudioEntryView {
    pub locator: Locator,
    pub checksum: u32,
}

pub open spec fn p_audio_entry(d: Seq<u8>, p: int) -> Result<(AudioEntryView, int), ReaderError> {
    match p_locator(d, p) {
        Err(e) => Err(e),
        Ok((locator, p1)) => match p_u32(d, p1) {
            Err(e) => Err(e),
            Ok((checksum, p2)) => Ok((AudioEntryView { locator, checksum }, p2)),
        },
    }
}

/// `n` audio entries, one after another.
pub open spec fn p_audio_entries(d: Seq<u8>, p: int, n: nat) -> Result<(Seq<AudioEntryView>, int), ReaderError>
    decreases n,
{
    if n == 0 {
        Ok((Seq::empty(), p))
    } else {
        match p_audio_entry(d, p) {
            Err(e) => Err(e),
            Ok((v, p1)) => match p_audio_entries(d, p1, (n - 1) as nat) {
                Err(e) => Err(e),
                Ok((vs, p2)) => Ok((seq![v] + vs, p2)),
            },
        }
    }
}

/// The audio list at its locator: a `u32` count then that many entries.
/// A zero-sized locator means an empty list, read nowhere.
pub open spec fn p_audio_list(d: Seq<u8>, loc: Locator) -> Result<
    (Seq<AudioEntryView>, int),
    ReaderError,
> {
    if loc.size == 0 {
        Ok((Seq::empty(), loc.offset as int))
    } else {
        match p_u32(d, loc.offset as int) {
            Err(e) => Err(e),
            Ok((count, p1)) => p_audio_entries(d, p1, count as nat),
        }
    }
}

/// The raw WAV bytes named by an audio entry's locator.
pub open spec fn p_audio_data(d: Seq<u8>, entry: AudioEntryView) -> Result<
    (Seq<u8>, int),
    ReaderError,
> {
    p_bytes(d, entry.locator.offset as int, entry.locator.size as int)
}

/// A buffer whose first four bytes are not the signature is rejected with
/// exactly that signature value.
pub proof fn lemma_invalid_signature(d: Seq<u8>)
    requires
        d.len() >= 4,
        le32_at(d, 0) != ACS_SIGNATURE,
    ensures
        p_header(d, 0) == Err::<(AcsHeader, int), ReaderError>(
            ReaderError::InvalidSignature(le32_at(d, 0)),
        ),
{
}

/// Rejecting a wrong signature depends on the first four bytes alone: two
/// buffers that agree on them are rejected identically, whatever follows.
pub proof fn lemma_invalid_signature_prefix_only(d1: Seq<u8>, d2: Seq<u8>)
    requires
        d1.len() >= 4,
        d2.len() >= 4,
        d1.subrange(0, 4) == d2.subrange(0, 4),
        le32_at(d1, 0) != ACS_SIGNATURE,
    ensures
        p_header(d1, 0) == p_header(d2, 0),
{
    assert(d1[0] == d1.subrange(0, 4)[0] && d1[1] == d1.subrange(0, 4)[1] && d1[2]
        == d1.subrange(0, 4)[2] && d1[3] == d1.subrange(0, 4)[3]);
    assert(d2[0] == d2.subrange(0, 4)[0] && d2[1] == d2.subrange(0, 4)[1] && d2[2]
        == d2.subrange(0, 4)[2] && d2[3] == d2.subrange(0, 4)[3]);
    assert(le32_at(d2, 0) == le32_at(d1, 0));
}

} // verus!

//! High-level ACS file facade: open a file image, query character metadata,
//! decode images and sounds, load animations lazily, and composite frames
//! into RGBA bitmaps.

use vstd::prelude::*;
use vstd::arithmetic::div_mod::{lemma_div_pos_is_pos, lemma_fundamental_div_mod,
    lemma_fundamental_div_mod_converse, lemma_mod_bound, lemma_multiply_divide_lt};
use vstd::string::StrSliceExecFns;
use vstd::string::StringExecFns;
use crate::compression::{decompress, spec_decompress, DecompressionError};
use crate::format::{p_animation_info, p_animation_list, p_audio_data, p_audio_list,
    p_character_info, p_header, p_image_info, p_image_list, padded_row_width, AnimationEntryView,
    AnimationInfoView, AudioEntryView, BranchInfoView, CharacterInfoView, FrameImageView,
    FrameInfoView, ImageEntryView, ImageInfoView, OverlayInfoView, StateInfoView};
use crate::reader::{AcsHeader, AcsReader, AnimationEntry, AudioEntry, ImageEntry,
    RawAnimationInfo, RawCharacterInfo, RawFrameInfo, RawImageInfo, ReaderError, StateInfo};

verus! {

#[derive(Debug)]
pub enum AcsError {
    Reader(ReaderError),
    Decompression(DecompressionError),
    InvalidImageIndex(usize),
    InvalidSoundIndex(usize),
    AnimationNotFound(String),
}

impl From<ReaderError> for AcsError {
    fn from(e: ReaderError) -> (r: Self) {
        AcsError::Reader(e)
    }
}

impl vstd::std_specs::convert::FromSpecImpl<ReaderError> for AcsError {
    open spec fn obeys_from_spec() -> bool {
        true
    }

    open spec fn from_spec(e: ReaderError) -> AcsError {
        AcsError::Reader(e)
    }
}

impl From<DecompressionError> for AcsError {
    fn from(e: DecompressionError) -> (r: Self) {
        AcsError::Decompression(e)
    }
}

impl vstd::std_specs::convert::FromSpecImpl<DecompressionError> for AcsError {
    open spec fn obeys_from_spec() -> bool {
        true
    }

    open spec fn from_spec(e: DecompressionError) -> AcsError {
        AcsError::Decompression(e)
    }
}

/// An RGBA bitmap in top-down row-major order.
#[derive(Debug, Clone)]
pub struct Image {
    pub width: u32,
    pub height: u32,
    /// RGBA pixel data: four bytes per pixel.
    pub data: Vec<u8>,
}

/// The mathematical value of an [`Image`].
pub struct ImageView {
    pub width: u32,
    pub height: u32,
    pub data: Seq<u8>,
}

impl View for Image {
    type V = ImageView;

    open spec fn view(&self) -> ImageView {
        ImageView { width: self.width, height: self.height, data: self.data@ }
    }
}

/// How an animation yields control after its last frame.
#[derive(Debug, Clone, Copy, PartialEq, Eq)]
pub enum TransitionType {
    NoTransition,
    ReturnAnimation,
    ExitBranch,
}

/// The transition type stored as a raw byte: `1` and `2` name the two
/// explicit transitions, anything else means none.
pub open spec fn transition_from_raw(v: u8) -> TransitionType {
    if v == 1 {
        TransitionType::ReturnAnimation
    } else if v == 2 {
        TransitionType::ExitBranch
    } else {
        TransitionType::NoTransition
    }
}

impl From<u8> for TransitionType {
    fn from(v: u8) -> (r: Self) {
        if v == 1 {
            TransitionType::ReturnAnimation
        } else if v == 2 {
            TransitionType::ExitBranch
        } else {
            TransitionType::NoTransition
        }
    }
}

impl vstd::std_specs::convert::FromSpecImpl<u8> for TransitionType {
    open spec fn obeys_from_spec() -> bool {
        true
    }

    open spec fn from_spec(v: u8) -> TransitionType {
        transition_from_raw(v)
    }
}

/// A mouth shape named by an overlay.
#[derive(Debug, Clone, Copy, PartialEq, Eq)]
pub enum OverlayType {
    MouthClosed,
    MouthWide1,
    MouthWide2,
    MouthWide3,
    MouthWide4,
    MouthMedium,
    MouthNarrow,
    Unknown(u8),
}

/// The overlay type stored as a raw byte: `0` through `6` name the mouth
/// shapes; any other value is carried through unchanged.
pub open spec fn overlay_type_from_raw(v: u8) -> OverlayType {
    if v == 0 {
        OverlayType::MouthClosed
    } else if v == 1 {
        OverlayType::MouthWide1
    } else if v == 2 {
        OverlayType::MouthWide2
    } else if v == 3 {
        OverlayType::MouthWide3
    } else if v == 4 {
        OverlayType::MouthWide4
    } else if v == 5 {
        OverlayType::MouthMedium
    } else if v == 6 {
        OverlayType::MouthNarrow
    } else {
        OverlayType::Unknown(v)
    }
}

impl From<u8> for OverlayType {
    fn from(v: u8) -> (r: Self) {
        if v == 0 {
            OverlayType::MouthClosed
        } else if v == 1 {
            OverlayType::MouthWide1
        } else if v == 2 {
            OverlayType::MouthWide2
        } else if v == 3 {
            OverlayType::MouthWide3
        } else if v == 4 {
            OverlayType::MouthWide4
        } else if v == 5 {
            OverlayType::MouthMedium
        } else if v == 6 {
            OverlayType::MouthNarrow
        } else {
            OverlayType::Unknown(v)
        }
    }
}

impl vstd::std_specs::convert::FromSpecImpl<u8> for OverlayType {
    open spec fn obeys_from_spec() -> bool {
        true
    }

    open spec fn from_spec(v: u8) -> OverlayType {
        overlay_type_from_raw(v)
    }
}

/// One image of a frame, placed at an offset on the canvas.
#[derive(Debug, Clone)]
pub struct FrameImage {
    pub image_index: usize,
    pub x: i16,
    pub y: i16,
}

impl DeepView for FrameImage {
    type V = FrameImage;

    open spec fn deep_view(&self) -> FrameImage {
        *self
    }
}

/// A branching rule: a target frame and its probability.
#[derive(Debug, Clone)]
pub struct Branch {
    pub frame_index: usize,
    pub probability: u16,
}

impl DeepView for Branch {
    type V = Branch;

    open spec fn deep_view(&self) -> Branch {
        *self
    }
}

/// A mouth overlay of a frame, exposed as data; the compositor does not
/// paint overlays.
#[derive(Debug, Clone)]
pub struct Overlay {
    pub overlay_type: OverlayType,
    pub replace_enabled: bool,
    pub image_index: usize,
    pub x: i16,
    pub y: i16,
    pub width: u16,
    pub height: u16,
}

impl DeepView for Overlay {
    type V = Overlay;

    open spec fn deep_view(&self) -> Overlay {
        *self
    }
}

/// One frame of an animation, with its duration normalized to milliseconds.
#[derive(Debug, Clone)]
pub struct Frame {
    pub images: Vec<FrameImage>,
    /// Duration in milliseconds; stored on disk in hundredths of a second.
    pub duration_ms: u32,
    pub sound_index: Option<usize>,
    pub exit_branch: Option<usize>,
    pub branches: Vec<Branch>,
    pub overlays: Vec<Overlay>,
}

/// The mathematical value of a [`Frame`].
pub struct FrameView {
    pub images: Seq<FrameImage>,
    pub duration_ms: u32,
    pub sound_index: Option<usize>,
    pub exit_branch: Option<usize>,
    pub branches: Seq<Branch>,
    pub overlays: Seq<Overlay>,
}

impl View for Frame {
    type V = FrameView;

    open spec fn view(&self) -> FrameView {
        FrameView {
            images: self.images.deep_view(),
            duration_ms: self.duration_ms,
            sound_index: self.sound_index,
            exit_branch: self.exit_branch,
            branches: self.branches.deep_view(),
            overlays: self.overlays.deep_view(),
        }
    }
}

impl DeepView for Frame {
    type V = FrameView;

    open spec fn deep_view(&self) -> FrameView {
        self.view()
    }
}

/// A decoded animation, normalized for playback.
#[derive(Debug, Clone)]
pub struct Animation {
    pub name: String,
    pub frames: Vec<Frame>,
    pub return_animation: Option<String>,
    pub transition_type: TransitionType,
}

/// The mathematical value of an [`Animation`].
pub struct AnimationView {
    pub name: Seq<char>,
    pub frames: Seq<FrameView>,
    pub return_animation: Option<Seq<char>>,
    pub transition_type: TransitionType,
}

impl View for Animation {
    type V = AnimationView;

    open spec fn view(&self) -> AnimationView {
        AnimationView {
            name: self.name@,
            frames: self.frames.deep_view(),
            return_animation: self.return_animation.deep_view(),
            transition_type: self.transition_type,
        }
    }
}

impl DeepView for Animation {
    type V = AnimationView;

    open spec fn deep_view(&self) -> AnimationView {
        self.view()
    }
}

/// Character metadata: the localized name and description, the canvas size,
/// the transparent palette index, the RGBA palette and the identity GUID.
#[derive(Debug, Clone)]
pub struct CharacterInfo {
    pub name: String,
    pub description: String,
    pub width: u16,
    pub height: u16,
    pub transparent_color: u8,
    /// RGBA palette entries.
    pub palette: Vec<[u8; 4]>,
    pub guid: [u8; 16],
}

/// The mathematical value of a [`CharacterInfo`].
pub struct CharacterView {
    pub name: Seq<char>,
    pub description: Seq<char>,
    pub width: u16,
    pub height: u16,
    pub transparent_color: u8,
    pub palette: Seq<Seq<u8>>,
    pub guid: Seq<u8>,
}

impl View for CharacterInfo {
    type V = CharacterView;

    open spec fn view(&self) -> CharacterView {
        CharacterView {
            name: self.name@,
            description: self.description@,
            width: self.width,
            height: self.height,
            transparent_color: self.transparent_color,
            palette: self.palette.deep_view(),
            guid: self.guid@,
        }
    }
}

/// A raw WAV byte stream.
#[derive(Debug, Clone)]
pub struct Sound {
    /// Complete WAV data, returned verbatim.
    pub data: Vec<u8>,
}

/// The mathematical value of a [`Sound`].
pub struct SoundView {
    pub data: Seq<u8>,
}

impl View for Sound {
    type V = SoundView;

    open spec fn view(&self) -> SoundView {
        SoundView { data: self.data@ }
    }
}

/// A character state: a named grouping of animation names.
#[derive(Debug, Clone)]
pub struct State {
    pub name: String,
    pub animations: Vec<String>,
}

impl View for State {
    type V = StateInfoView;

    open spec fn view(&self) -> StateInfoView {
        StateInfoView { name: self.name@, animations: self.animations.deep_view() }
    }
}

impl DeepView for State {
    type V = StateInfoView;

    open spec fn deep_view(&self) -> StateInfoView {
        self.view()
    }
}

/// ASCII case folding of one character: letters `A` through `Z` map to
/// their lower-case forms, all else is unchanged.
pub open spec fn lower_char(c: char) -> char {
    if 65 <= c as u32 && c as u32 <= 90 {
        ((c as u32) + 32) as char
    } else {
        c
    }
}

/// Equality of strings under ASCII case folding.
pub open spec fn eq_ignore_case(a: Seq<char>, b: Seq<char>) -> bool {
    &&& a.len() == b.len()
    &&& forall|i: int| 0 <= i < a.len() ==> lower_char(a[i]) == lower_char(b[i])
}

/// ASCII case folding of one character.
fn lower_char_exec(c: char) -> (r: char)
    ensures
        r == lower_char(c),
{
    let u: u32 = c as u32;
    if 65 <= u && u <= 90 {
        ((u + 32) as u8) as char
    } else {
        c
    }
}

/// Compare two strings for equality under ASCII case folding.
fn str_eq_ignore_case(a: &str, b: &str) -> (r: bool)
    ensures
        r == eq_ignore_case(a@, b@),
{
    let alen: usize = a.unicode_len();
    let blen: usize = b.unicode_len();
    if alen != blen {
        return false;
    }
    let mut i: usize = 0;
    while i < alen
        invariant
            alen == a@.len(),
            blen == b@.len(),
            alen == blen,
            i <= alen,
            forall|j: int| 0 <= j < i ==> lower_char(a@[j]) == lower_char(b@[j]),
        decreases alen - i,
    {
        let ca: char = a.get_char(i);
        let cb: char = b.get_char(i);
        if lower_char_exec(ca) != lower_char_exec(cb) {
            return false;
        }
        i = i + 1;
    }
    true
}

/// The facade's form of one frame image.
pub open spec fn conv_frame_image(fi: FrameImageView) -> FrameImage {
    FrameImage { image_index: fi.image_index as usize, x: fi.x_offset, y: fi.y_offset }
}

/// The facade's form of one branch rule.
pub open spec fn conv_branch(b: BranchInfoView) -> Branch {
    Branch { frame_index: b.frame_index as usize, probability: b.probability }
}

/// The facade's form of one overlay: the type byte becomes a named mouth
/// shape; the region blob is not republished.
pub open spec fn conv_overlay(o: OverlayInfoView) -> Overlay {
    Overlay {
        overlay_type: overlay_type_from_raw(o.overlay_type),
        replace_enabled: o.replace_enabled,
        image_index: o.image_index as usize,
        x: o.x_offset,
        y: o.y_offset,
        width: o.width,
        height: o.height,
    }
}

/// The facade's form of one frame: durations become milliseconds; negative
/// sound and exit-branch indices mean absence.
pub open spec fn conv_frame(f: FrameInfoView) -> FrameView {
    FrameView {
        images: f.images.map_values(|fi: FrameImageView| conv_frame_image(fi)),
        duration_ms: (f.duration * 10) as u32,
        sound_index: if f.sound_index >= 0 {
            Some(f.sound_index as usize)
        } else {
            None
        },
        exit_branch: if f.exit_branch >= 0 {
            Some(f.exit_branch as usize)
        } else {
            None
        },
        branches: f.branches.map_values(|b: BranchInfoView| conv_branch(b)),
        overlays: f.overlays.map_values(|o: OverlayInfoView| conv_overlay(o)),
    }
}

/// The facade's form of an animation record: an empty return-animation
/// string means absence.
pub open spec fn conv_animation(a: AnimationInfoView) -> AnimationView {
    AnimationView {
        name: a.name,
        frames: a.frames.map_values(|f: FrameInfoView| conv_frame(f)),
        return_animation: if a.return_animation.len() == 0 {
            None
        } else {
            Some(a.return_animation)
        },
        transition_type: transition_from_raw(a.transition_type),
    }
}

/// The facade's form of the character info: name and description come from
/// the first localized-info record; palette entries gain an opaque alpha.
pub open spec fn conv_character(c: CharacterInfoView) -> CharacterView {
    CharacterView {
        name: if c.localized_info.len() > 0 {
            c.localized_info[0].name
        } else {
            Seq::empty()
        },
        description: if c.localized_info.len() > 0 {
            c.localized_info[0].description
        } else {
            Seq::empty()
        },
        width: c.width,
        height: c.height,
        transparent_color: c.transparent_color,
        palette: c.palette.map_values(|rgb: Seq<u8>| rgb.push(255u8)),
        guid: c.guid,
    }
}

/// Clone a vector of strings.
fn clone_strings(v: &Vec<String>) -> (r: Vec<String>)
    ensures
        r.deep_view() == v.deep_view(),
{
    let mut out: Vec<String> = Vec::new();
    let mut i: usize = 0;
    while i < v.len()
        invariant
            i <= v@.len(),
            out@.len() == i,
            forall|j: int| 0 <= j < i ==> out@[j]@ == v@[j]@,
        decreases v@.len() - i,
    {
        out.push(v[i].clone());
        i = i + 1;
    }
    proof {
        assert(out.deep_view() =~= v.deep_view());
    }
    out
}

/// Build the facade's character metadata from the decoded block.
fn build_character_info(raw: &RawCharacterInfo) -> (r: CharacterInfo)
    ensures
        r@ == conv_character(raw@),
{
    let (name, description): (String, String) = if raw.localized_info.len() > 0 {
        (raw.localized_info[0].name.clone(), raw.localized_info[0].description.clone())
    } else {
        (String::new(), String::new())
    };
    let mut palette: Vec<[u8; 4]> = Vec::new();
    let mut i: usize = 0;
    while i < raw.palette.len()
        invariant
            i <= raw.palette@.len(),
            palette@.len() == i,
            forall|j: int| 0 <= j < i ==> palette@[j]@ == raw.palette@[j]@.push(255u8),
        decreases raw.palette@.len() - i,
    {
        let e: [u8; 3] = raw.palette[i];
        let q: [u8; 4] = [e[0], e[1], e[2], 255];
        proof {
            assert(q@ =~= raw.palette@[i as int]@.push(255u8));
        }
        palette.push(q);
        i = i + 1;
    }
    let r = CharacterInfo {
        name,
        description,
        width: raw.width,
        height: raw.height,
        transparent_color: raw.transparent_color,
        palette,
        guid: raw.guid,
    };
    proof {
        assert(r.palette.deep_view() =~~= conv_character(raw@).palette);
    }
    r
}

/// Copy the state list into the facade's form.
fn build_states(src: &Vec<StateInfo>) -> (r: Vec<State>)
    ensures
        r.deep_view() == src.deep_view(),
{
    let mut out: Vec<State> = Vec::new();
    let mut i: usize = 0;
    while i < src.len()
        invariant
            i <= src@.len(),
            out@.len() == i,
            forall|j: int| 0 <= j < i ==> #[trigger] out@[j]@ == src@[j]@,
        decreases src@.len() - i,
    {
        let st: &StateInfo = &src[i];
        let state = State { name: st.name.clone(), animations: clone_strings(&st.animations) };
        out.push(state);
        i = i + 1;
    }
    proof {
        assert(out.deep_view() =~= src.deep_view());
    }
    out
}

/// An animation-list slot: the entry's name and offset, and the decoded
/// animation once it has been loaded.
struct AnimationCacheEntry {
    name: String,
    offset: u32,
    cached: Option<Animation>,
}

/// The mathematical value of an animation-list slot.
pub struct CacheEntryView {
    pub name: Seq<char>,
    pub offset: u32,
    pub cached: Option<AnimationView>,
}

impl View for AnimationCacheEntry {
    type V = CacheEntryView;

    closed spec fn view(&self) -> CacheEntryView {
        CacheEntryView { name: self.name@, offset: self.offset, cached: self.cached.deep_view() }
    }
}

impl DeepView for AnimationCacheEntry {
    type V = CacheEntryView;

    closed spec fn deep_view(&self) -> CacheEntryView {
        self.view()
    }
}

/// A fresh (unloaded) cache slot for one animation entry.
pub open spec fn fresh_slot(e: AnimationEntryView) -> CacheEntryView {
    CacheEntryView { name: e.name, offset: e.locator.offset, cached: None }
}

/// Turn the decoded animation entries into unloaded cache slots.
fn build_cache_entries(entries: Vec<AnimationEntry>) -> (r: Vec<AnimationCacheEntry>)
    ensures
        r.deep_view() == entries.deep_view().map_values(|e: AnimationEntryView| fresh_slot(e)),
{
    let mut out: Vec<AnimationCacheEntry> = Vec::new();
    let mut i: usize = 0;
    while i < entries.len()
        invariant
            i <= entries@.len(),
            out@.len() == i,
            forall|j: int| 0 <= j < i ==> #[trigger] out@[j]@ == fresh_slot(entries@[j]@),
        decreases entries@.len() - i,
    {
        let e: &AnimationEntry = &entries[i];
        out.push(AnimationCacheEntry { name: e.name.clone(), offset: e.locator.offset, cached: None });
        i = i + 1;
    }
    proof {
        assert(out.deep_view() =~= entries.deep_view().map_values(
            |e: AnimationEntryView| fresh_slot(e),
        ));
    }
    out
}


/// Convert the frame images of one raw frame.
fn conv_frame_images_exec(src: &Vec<crate::reader::RawFrameImage>) -> (r: Vec<FrameImage>)
    ensures
        r.deep_view() == src.deep_view().map_values(|fi: FrameImageView| conv_frame_image(fi)),
{
    let mut out: Vec<FrameImage> = Vec::new();
    let mut i: usize = 0;
    while i < src.len()
        invariant
            i <= src@.len(),
            out@.len() == i,
            forall|j: int| 0 <= j < i ==> #[trigger] out@[j] == conv_frame_image(src@[j]@),
        decreases src@.len() - i,
    {
        let fi: &crate::reader::RawFrameImage = &src[i];
        out.push(FrameImage { image_index: fi.image_index as usize, x: fi.x_offset, y: fi.y_offset });
        i = i + 1;
    }
    proof {
        assert(out.deep_view() =~= src.deep_view().map_values(
            |fi: FrameImageView| conv_frame_image(fi),
        ));
    }
    out
}

/// Convert the branch rules of one raw frame.
fn conv_branches_exec(src: &Vec<crate::reader::RawBranchInfo>) -> (r: Vec<Branch>)
    ensures
        r.deep_view() == src.deep_view().map_values(|b: BranchInfoView| conv_branch(b)),
{
    let mut out: Vec<Branch> = Vec::new();
    let mut i: usize = 0;
    while i < src.len()
        invariant
            i <= src@.len(),
            out@.len() == i,
            forall|j: int| 0 <= j < i ==> #[trigger] out@[j] == conv_branch(src@[j]@),
        decreases src@.len() - i,
    {
        let b: &crate::reader::RawBranchInfo = &src[i];
        out.push(Branch { frame_index: b.frame_index as usize, probability: b.probability });
        i = i + 1;
    }
    proof {
        assert(out.deep_view() =~= src.deep_view().map_values(|b: BranchInfoView| conv_branch(b)));
    }
    out
}

/// Convert the overlays of one raw frame.
fn conv_overlays_exec(src: &Vec<crate::reader::RawOverlayInfo>) -> (r: Vec<Overlay>)
    ensures
        r.deep_view() == src.deep_view().map_values(|o: OverlayInfoView| conv_overlay(o)),
{
    let mut out: Vec<Overlay> = Vec::new();
    let mut i: usize = 0;
    while i < src.len()
        invariant
            i <= src@.len(),
            out@.len() == i,
            forall|j: int| 0 <= j < i ==> #[trigger] out@[j] == conv_overlay(src@[j]@),
        decreases src@.len() - i,
    {
        let o: &crate::reader::RawOverlayInfo = &src[i];
        out.push(
            Overlay {
                overlay_type: OverlayType::from(o.overlay_type),
                replace_enabled: o.replace_enabled,
                image_index: o.image_index as usize,
                x: o.x_offset,
                y: o.y_offset,
                width: o.width,
                height: o.height,
            },
        );
        i = i + 1;
    }
    proof {
        assert(out.deep_view() =~= src.deep_view().map_values(|o: OverlayInfoView| conv_overlay(o)));
    }
    out
}

/// Convert one raw frame into the facade's form.
fn convert_frame(f: &RawFrameInfo) -> (r: Frame)
    ensures
        r@ == conv_frame(f@),
{
    let images: Vec<FrameImage> = conv_frame_images_exec(&f.images);
    let branches: Vec<Branch> = conv_branches_exec(&f.branches);
    let overlays: Vec<Overlay> = conv_overlays_exec(&f.overlays);
    Frame {
        images,
        duration_ms: f.duration as u32 * 10,
        sound_index: if f.sound_index >= 0 {
            Some(f.sound_index as usize)
        } else {
            None
        },
        exit_branch: if f.exit_branch >= 0 {
            Some(f.exit_branch as usize)
        } else {
            None
        },
        branches,
        overlays,
    }
}

/// The first slot whose name matches `name` under ASCII case folding, with
/// no earlier match.
pub open spec fn is_first_match(entries: Seq<CacheEntryView>, name: Seq<char>, i: int) -> bool {
    &&& 0 <= i < entries.len()
    &&& eq_ignore_case(entries[i].name, name)
    &&& forall|j: int| 0 <= j < i ==> !eq_ignore_case(#[trigger] entries[j].name, name)
}

/// What decoding a sound yields: the verbatim WAV bytes at the entry's
/// locator, or the out-of-range index, or the wrapped read error.
pub open spec fn spec_sound(v: AcsView, index: usize) -> Result<SoundView, AcsError> {
    if index >= v.audio_list.len() {
        Err(AcsError::InvalidSoundIndex(index))
    } else {
        match p_audio_data(v.data, v.audio_list[index as int]) {
            Err(e) => Err(AcsError::Reader(e)),
            Ok((bytes, _)) => Ok(SoundView { data: bytes }),
        }
    }
}


/// The byte at index `j` of the decoded RGBA output: pixels are laid out
/// top-down although the source rows are stored bottom-up; a source index
/// past the payload, and the transparent color, decode to clear pixels; a
/// palette index past the palette decodes to opaque black.
pub open spec fn decoded_byte(
    px: Seq<u8>,
    w: u16,
    h: u16,
    t: u8,
    pal: Seq<Seq<u8>>,
    j: int,
) -> u8 {
    let pix = j / 4;
    let ch = j % 4;
    let dy = pix / (w as int);
    let x = pix % (w as int);
    let sy = h - 1 - dy;
    let idx = sy * padded_row_width(w as nat) + x;
    if idx >= px.len() {
        0u8
    } else {
        let c = px[idx];
        if c == t {
            0u8
        } else if c < pal.len() {
            pal[c as int][ch]
        } else if ch == 3 {
            255u8
        } else {
            0u8
        }
    }
}

/// The RGBA image decoded from an indexed pixel payload.
pub open spec fn decode_rgba(px: Seq<u8>, w: u16, h: u16, t: u8, pal: Seq<Seq<u8>>) -> ImageView {
    ImageView {
        width: w as u32,
        height: h as u32,
        data: Seq::new(4 * (w as nat) * (h as nat), |j: int| decoded_byte(px, w, h, t, pal, j)),
    }
}

/// What decoding an image record yields: the payload is decompressed when
/// flagged, then mapped through the palette and the transparent color.
pub open spec fn spec_decode_image(raw: ImageInfoView, ci: CharacterView) -> Result<
    ImageView,
    AcsError,
> {
    let px = if raw.is_compressed {
        spec_decompress(raw.data)
    } else {
        Ok(raw.data)
    };
    match px {
        Err(e) => Err(AcsError::Decompression(e)),
        Ok(p) => Ok(decode_rgba(p, raw.width, raw.height, ci.transparent_color, ci.palette)),
    }
}

/// What decoding the image at `index` yields: the out-of-range index, or
/// the record at its entry's locator decoded against the character's
/// palette.
pub open spec fn spec_image(v: AcsView, index: usize) -> Result<ImageView, AcsError> {
    if index >= v.image_list.len() {
        Err(AcsError::InvalidImageIndex(index))
    } else {
        match p_image_info(v.data, v.image_list[index as int].locator.offset) {
            Err(e) => Err(AcsError::Reader(e)),
            Ok((raw, _)) => spec_decode_image(raw, v.character_info),
        }
    }
}

/// Decode an indexed, bottom-up, row-padded pixel payload into a top-down
/// RGBA bitmap.
fn decode_pixels(px: &Vec<u8>, width: u16, height: u16, transparent: u8, palette: &Vec<[u8; 4]>)
    -> (r: Vec<u8>)
    ensures
        r@ == decode_rgba(px@, width, height, transparent, palette.deep_view()).data,
{
    let w: usize = width as usize;
    let h: usize = height as usize;
    let row_width: usize = ((w + 3) / 4) * 4;
    let mut rgba: Vec<u8> = Vec::new();
    let mut dy: usize = 0;
    while dy < h
        invariant
            dy <= h,
            w == width as int,
            h == height as int,
            row_width == padded_row_width(width as nat),
            row_width <= 0x10000,
            rgba@.len() == 4 * (dy * w),
            forall|j: int|
                0 <= j < rgba@.len() ==> rgba@[j] == decoded_byte(
                    px@,
                    width,
                    height,
                    transparent,
                    palette.deep_view(),
                    j,
                ),
        decreases h - dy,
    {
        let sy: usize = h - 1 - dy;
        let mut x: usize = 0;
        while x < w
            invariant
                dy < h,
                x <= w,
                sy == h - 1 - dy,
                w == width as int,
                h == height as int,
                row_width == padded_row_width(width as nat),
                row_width <= 0x10000,
                rgba@.len() == 4 * (dy * w + x),
                forall|j: int|
                    0 <= j < rgba@.len() ==> rgba@[j] == decoded_byte(
                        px@,
                        width,
                        height,
                        transparent,
                        palette.deep_view(),
                        j,
                    ),
            decreases w - x,
        {
            proof {
                assert(sy * row_width <= 0xfffe * 0x10000) by (nonlinear_arith)
                    requires
                        sy <= 0xfffe,
                        row_width <= 0x10000,
                ;
            }
            let idx: usize = sy * row_width + x;
            let ghost base: int = rgba@.len() as int;
            if idx < px.len() {
                let c: u8 = px[idx];
                if c == transparent {
                    rgba.push(0);
                    rgba.push(0);
                    rgba.push(0);
                    rgba.push(0);
                } else if (c as usize) < palette.len() {
                    let e: [u8; 4] = palette[c as usize];
                    rgba.push(e[0]);
                    rgba.push(e[1]);
                    rgba.push(e[2]);
                    rgba.push(e[3]);
                } else {
                    rgba.push(0);
                    rgba.push(0);
                    rgba.push(0);
                    rgba.push(255);
                }
            } else {
                rgba.push(0);
                rgba.push(0);
                rgba.push(0);
                rgba.push(0);
            }
            proof {
                let pix: int = dy * w + x;
                lemma_fundamental_div_mod_converse(pix, width as int, dy as int, x as int);
                lemma_fundamental_div_mod_converse(base + 0, 4, pix, 0);
                lemma_fundamental_div_mod_converse(base + 1, 4, pix, 1);
                lemma_fundamental_div_mod_converse(base + 2, 4, pix, 2);
                lemma_fundamental_div_mod_converse(base + 3, 4, pix, 3);
                if sy * row_width + x < px@.len() {
                    let c = px@[sy * row_width + x];
                    if c != transparent && (c as int) < palette.deep_view().len() {
                        assert(palette.deep_view()[c as int] =~= palette@[c as int]@);
                    }
                }
                assert(rgba@[base + 0] == decoded_byte(px@, width, height, transparent,
                    palette.deep_view(), base + 0));
                assert(rgba@[base + 1] == decoded_byte(px@, width, height, transparent,
                    palette.deep_view(), base + 1));
                assert(rgba@[base + 2] == decoded_byte(px@, width, height, transparent,
                    palette.deep_view(), base + 2));
                assert(rgba@[base + 3] == decoded_byte(px@, width, height, transparent,
                    palette.deep_view(), base + 3));
            }
            x = x + 1;
        }
        proof {
            assert(4 * (dy * w + w) == 4 * ((dy + 1) * w)) by (nonlinear_arith);
        }
        dy = dy + 1;
    }
    proof {
        assert(4 * (h * w) == 4 * (width as nat) * (height as nat)) by (nonlinear_arith)
            requires
                w == width as int,
                h == height as int,
        ;
        assert(rgba@ =~= decode_rgba(px@, width, height, transparent, palette.deep_view()).data);
    }
    rgba
}


/// One byte of painting `img` onto a canvas of row width `cw` at offset
/// `(ox, oy)`: where the index falls inside the placed image and the source
/// pixel has positive alpha, the source byte wins; everywhere else the
/// canvas byte stays. Painting replaces opaquely; it does not blend.
pub open spec fn blit_byte(
    canvas0: Seq<u8>,
    cw: int,
    img: ImageView,
    ox: int,
    oy: int,
    j: int,
) -> u8 {
    let pix = j / 4;
    let ch = j % 4;
    let dy = pix / cw;
    let dx = pix % cw;
    let sx = dx - ox;
    let sy = dy - oy;
    if 0 <= sx < img.width && 0 <= sy < img.height && img.data[4 * (sy * img.width + sx) + 3]
        > 0 {
        img.data[4 * (sy * img.width + sx) + ch]
    } else {
        canvas0[j]
    }
}

/// Painting an image onto a whole canvas.
pub open spec fn blit(canvas0: Seq<u8>, cw: int, img: ImageView, ox: int, oy: int) -> Seq<u8> {
    Seq::new(canvas0.len(), |j: int| blit_byte(canvas0, cw, img, ox, oy, j))
}

/// [`blit_byte`] restricted to the source pixels strictly before `(py, px)`
/// in row-major order; the rest of the canvas is still untouched.
pub open spec fn blit_byte_upto(
    canvas0: Seq<u8>,
    cw: int,
    img: ImageView,
    ox: int,
    oy: int,
    j: int,
    py: int,
    px: int,
) -> u8 {
    let pix = j / 4;
    let ch = j % 4;
    let dy = pix / cw;
    let dx = pix % cw;
    let sx = dx - ox;
    let sy = dy - oy;
    if 0 <= sx < img.width && 0 <= sy < img.height && (sy < py || (sy == py && sx < px))
        && img.data[4 * (sy * img.width + sx) + 3] > 0 {
        img.data[4 * (sy * img.width + sx) + ch]
    } else {
        canvas0[j]
    }
}

/// A fully transparent canvas of `w` by `h` RGBA pixels.
pub open spec fn zero_canvas(w: u16, h: u16) -> Seq<u8> {
    Seq::new(4 * (w as nat) * (h as nat), |j: int| 0u8)
}

/// Compositing a stack of frame images onto a character-sized canvas: the
/// last-declared image is painted first and the first-declared last, so the
/// first-declared ends up on top. A decoding failure aborts; the failures
/// of images painted earlier come first.
pub open spec fn spec_composite(v: AcsView, images: Seq<FrameImage>) -> Result<Seq<u8>, AcsError>
    decreases images.len(),
{
    if images.len() == 0 {
        Ok(zero_canvas(v.character_info.width, v.character_info.height))
    } else {
        match spec_composite(v, images.drop_first()) {
            Err(e) => Err(e),
            Ok(canvas) => match spec_image(v, images[0].image_index) {
                Err(e) => Err(e),
                Ok(img) => Ok(
                    blit(
                        canvas,
                        v.character_info.width as int,
                        img,
                        images[0].x as int,
                        images[0].y as int,
                    ),
                ),
            },
        }
    }
}

/// An error of a suffix of the image stack is the error of the whole stack.
pub proof fn lemma_composite_err_prefix(v: AcsView, images: Seq<FrameImage>, i: int)
    requires
        0 <= i <= images.len(),
        spec_composite(v, images.skip(i)) is Err,
    ensures
        spec_composite(v, images) == spec_composite(v, images.skip(i)),
    decreases i,
{
    if i == 0 {
        assert(images.skip(0) =~= images);
    } else {
        assert(images.skip(i - 1).drop_first() =~= images.skip(i));
        assert(images.skip(i - 1).len() > 0);
        lemma_composite_err_prefix(v, images, i - 1);
    }
}


/// A successful composite is always a full character-sized canvas.
pub proof fn lemma_composite_len(v: AcsView, images: Seq<FrameImage>)
    ensures
        (match spec_composite(v, images) {
            Ok(c) => c.len() == 4 * (v.character_info.width as nat) * (
            v.character_info.height as nat),
            Err(_) => true,
        }),
    decreases images.len(),
{
    if images.len() > 0 {
        lemma_composite_len(v, images.drop_first());
    }
}

/// What rendering one frame yields: a character-sized RGBA canvas with the
/// frame's images painted onto it.
pub open spec fn spec_composite_frame(v: AcsView, frame: FrameView) -> Result<ImageView, AcsError> {
    match spec_composite(v, frame.images) {
        Err(e) => Err(e),
        Ok(c) => Ok(
            ImageView {
                width: v.character_info.width as u32,
                height: v.character_info.height as u32,
                data: c,
            },
        ),
    }
}

/// A fully transparent canvas of `cw` by `chh` RGBA pixels.
fn zero_pixels(cw: u16, chh: u16) -> (r: Vec<u8>)
    ensures
        r@ == zero_canvas(cw, chh),
{
    let mut out: Vec<u8> = Vec::new();
    let mut y: usize = 0;
    while y < chh as usize
        invariant
            y <= chh as usize,
            out@.len() == 4 * (y as int) * (cw as int),
            forall|j: int| 0 <= j < out@.len() ==> out@[j] == 0u8,
        decreases chh as usize - y,
    {
        let mut x: usize = 0;
        while x < cw as usize
            invariant
                y < chh as usize,
                x <= cw as usize,
                out@.len() == 4 * (y as int) * (cw as int) + 4 * (x as int),
                forall|j: int| 0 <= j < out@.len() ==> out@[j] == 0u8,
            decreases cw as usize - x,
        {
            out.push(0);
            out.push(0);
            out.push(0);
            out.push(0);
            x = x + 1;
        }
        proof {
            assert(4 * (y as int) * (cw as int) + 4 * (cw as int) == 4 * (y as int + 1) * (
            cw as int)) by (nonlinear_arith);
        }
        y = y + 1;
    }
    proof {
        assert(4 * (chh as int) * (cw as int) == 4 * (cw as nat) * (chh as nat))
            by (nonlinear_arith);
        assert(out@ =~= zero_canvas(cw, chh));
    }
    out
}

/// Paint `img` onto `canvas` (a `cw` by `chh` RGBA canvas) at offset
/// `(ox, oy)`, clipping to the canvas and replacing only where the source
/// pixel is not fully transparent.
fn blit_image(canvas: &mut Vec<u8>, cw: u16, chh: u16, img: &Image, ox: i16, oy: i16)
    requires
        old(canvas)@.len() == 4 * (cw as int) * (chh as int),
        img@.data.len() == 4 * img@.width * img@.height,
        img@.width <= 0xffff,
        img@.height <= 0xffff,
    ensures
        final(canvas)@ == blit(old(canvas)@, cw as int, img@, ox as int, oy as int),
{
    let ghost canvas0: Seq<u8> = canvas@;
    let w: usize = img.width as usize;
    let h: usize = img.height as usize;
    let dlen: usize = img.data.len();
    let clen: usize = canvas.len();
    let mut y: usize = 0;
    proof {
        assert(forall|j: int|
            0 <= j < canvas@.len() ==> canvas@[j] == blit_byte_upto(
                canvas0,
                cw as int,
                img@,
                ox as int,
                oy as int,
                j,
                0,
                0,
            ));
    }
    while y < h
        invariant
            y <= h,
            w == img@.width,
            h == img@.height,
            w <= 0xffff,
            h <= 0xffff,
            dlen == img@.data.len(),
            dlen == 4 * img@.width * img@.height,
            canvas0.len() == 4 * (cw as int) * (chh as int),
            clen == canvas0.len(),
            canvas@.len() == canvas0.len(),
            forall|j: int|
                0 <= j < canvas@.len() ==> canvas@[j] == blit_byte_upto(
                    canvas0,
                    cw as int,
                    img@,
                    ox as int,
                    oy as int,
                    j,
                    y as int,
                    0,
                ),
        decreases h - y,
    {
        let mut x: usize = 0;
        while x < w
            invariant
                y < h,
                x <= w,
                w == img@.width,
                h == img@.height,
                w <= 0xffff,
                h <= 0xffff,
                dlen == img@.data.len(),
                dlen == 4 * img@.width * img@.height,
                canvas0.len() == 4 * (cw as int) * (chh as int),
                clen == canvas0.len(),
                canvas@.len() == canvas0.len(),
                forall|j: int|
                    0 <= j < canvas@.len() ==> canvas@[j] == blit_byte_upto(
                        canvas0,
                        cw as int,
                        img@,
                        ox as int,
                        oy as int,
                        j,
                        y as int,
                        x as int,
                    ),
            decreases w - x,
        {
            proof {
                assert(4 * ((y * w + x) as int) + 3 < 4 * (w as int) * (h as int))
                    by (nonlinear_arith)
                    requires
                        x < w,
                        y < h,
                ;
            }
            let spix: usize = y * w + x;
            let src_base: usize = 4 * spix;
            let alpha: u8 = img.data[src_base + 3];
            let dx_i: i32 = ox as i32 + x as i32;
            let dy_i: i32 = oy as i32 + y as i32;
            if dx_i >= 0 && dx_i < cw as i32 && dy_i >= 0 && dy_i < chh as i32 && alpha > 0 {
                let dxu: usize = dx_i as usize;
                let dyu: usize = dy_i as usize;
                proof {
                    assert(4 * ((dyu * cw as usize + dxu) as int) + 3 < 4 * (cw as int) * (
                    chh as int)) by (nonlinear_arith)
                        requires
                            dxu < cw as int,
                            dyu < chh as int,
                    ;
                }
                let dpix: usize = dyu * (cw as usize) + dxu;
                let dst_base: usize = 4 * dpix;
                let v0: u8 = img.data[src_base];
                let v1: u8 = img.data[src_base + 1];
                let v2: u8 = img.data[src_base + 2];
                canvas[dst_base] = v0;
                canvas[dst_base + 1] = v1;
                canvas[dst_base + 2] = v2;
                canvas[dst_base + 3] = alpha;
                proof {
                    assert forall|j: int|
                        0 <= j < canvas@.len() implies canvas@[j] == blit_byte_upto(
                        canvas0,
                        cw as int,
                        img@,
                        ox as int,
                        oy as int,
                        j,
                        y as int,
                        x as int + 1,
                    ) by {
                        let pix: int = j / 4;
                        let chj: int = j % 4;
                        lemma_fundamental_div_mod(j, 4);
                        lemma_mod_bound(j, 4);
                        assert(4 * ((cw as int) * (chh as int)) == 4 * (cw as int) * (chh as int))
                            by (nonlinear_arith);
                        lemma_multiply_divide_lt(j, 4, (cw as int) * (chh as int));
                        lemma_fundamental_div_mod(pix, cw as int);
                        lemma_mod_bound(pix, cw as int);
                        lemma_multiply_divide_lt(pix, cw as int, chh as int);
                        lemma_div_pos_is_pos(j, 4);
                        lemma_div_pos_is_pos(pix, cw as int);
                        let dxj: int = pix % (cw as int);
                        let dyj: int = pix / (cw as int);
                        if dxj == ox + x && dyj == oy + y {
                            assert(j == 4 * (dyj * (cw as int) + dxj) + chj) by (nonlinear_arith)
                                requires
                                    j == 4 * pix + chj,
                                    pix == (cw as int) * dyj + dxj,
                            ;
                            assert(dst_base == 4 * (dyj * (cw as int) + dxj));
                            assert(dst_base <= j < dst_base + 4);
                        } else {
                            if dst_base <= j < dst_base + 4 {
                                lemma_fundamental_div_mod_converse(j, 4, dpix as int, j - 4 * (
                                dpix as int));
                                lemma_fundamental_div_mod_converse(
                                    dpix as int,
                                    cw as int,
                                    dyu as int,
                                    dxu as int,
                                );
                                assert(false);
                            }
                        }
                    }
                }
            } else {
                proof {
                    assert forall|j: int|
                        0 <= j < canvas@.len() implies canvas@[j] == blit_byte_upto(
                        canvas0,
                        cw as int,
                        img@,
                        ox as int,
                        oy as int,
                        j,
                        y as int,
                        x as int + 1,
                    ) by {
                        let pix: int = j / 4;
                        let chj: int = j % 4;
                        lemma_fundamental_div_mod(j, 4);
                        lemma_mod_bound(j, 4);
                        assert(4 * ((cw as int) * (chh as int)) == 4 * (cw as int) * (chh as int))
                            by (nonlinear_arith);
                        lemma_multiply_divide_lt(j, 4, (cw as int) * (chh as int));
                        lemma_fundamental_div_mod(pix, cw as int);
                        lemma_mod_bound(pix, cw as int);
                        lemma_multiply_divide_lt(pix, cw as int, chh as int);
                        lemma_div_pos_is_pos(j, 4);
                        lemma_div_pos_is_pos(pix, cw as int);
                    }
                }
            }
            x = x + 1;
        }
        proof {
            assert forall|j: int| 0 <= j < canvas@.len() implies blit_byte_upto(
                canvas0,
                cw as int,
                img@,
                ox as int,
                oy as int,
                j,
                y as int,
                w as int,
            ) == blit_byte_upto(
                canvas0,
                cw as int,
                img@,
                ox as int,
                oy as int,
                j,
                y as int + 1,
                0,
            ) by {}
        }
        y = y + 1;
    }
    proof {
        assert forall|j: int| 0 <= j < canvas@.len() implies canvas@[j] == blit_byte(
            canvas0,
            cw as int,
            img@,
            ox as int,
            oy as int,
            j,
        ) by {}
        assert(canvas@ =~= blit(canvas0, cw as int, img@, ox as int, oy as int));
    }
}

/// The mathematical value of an [`Acs`] facade.
pub struct AcsView {
    pub data: Seq<u8>,
    pub header: AcsHeader,
    pub character_info: CharacterView,
    pub animation_list: Seq<CacheEntryView>,
    pub image_list: Seq<ImageEntryView>,
    pub audio_list: Seq<AudioEntryView>,
    pub states: Seq<StateInfoView>,
}

/// What opening a file image yields: the header, the character info with
/// its states, and the three top-level lists, every animation still
/// unloaded. Reader errors are wrapped; nothing else can fail.
pub open spec fn spec_open(d: Seq<u8>) -> Result<AcsView, AcsError> {
    match p_header(d, 0) {
        Err(e) => Err(AcsError::Reader(e)),
        Ok((h, _)) => match p_character_info(d, h.character_info.offset) {
            Err(e) => Err(AcsError::Reader(e)),
            Ok((ci, _)) => match p_animation_list(d, h.animation_info) {
                Err(e) => Err(AcsError::Reader(e)),
                Ok((anims, _)) => match p_image_list(d, h.image_info) {
                    Err(e) => Err(AcsError::Reader(e)),
                    Ok((imgs, _)) => match p_audio_list(d, h.audio_info) {
                        Err(e) => Err(AcsError::Reader(e)),
                        Ok((auds, _)) => Ok(
                            AcsView {
                                data: d,
                                header: h,
                                character_info: conv_character(ci),
                                animation_list: anims.map_values(
                                    |e: AnimationEntryView| fresh_slot(e),
                                ),
                                image_list: imgs,
                                audio_list: auds,
                                states: ci.states,
                            },
                        ),
                    },
                },
            },
        },
    }
}

/// The coherence of the animation cache with the animation list: each slot
/// carries its entry's name and offset, and a loaded slot holds exactly the
/// converted record parsed at that offset.
pub open spec fn cache_coherent(
    d: Seq<u8>,
    cache: Seq<CacheEntryView>,
    entries: Seq<AnimationEntryView>,
) -> bool {
    &&& cache.len() == entries.len()
    &&& forall|i: int|
        0 <= i < entries.len() ==> {
            &&& (#[trigger] cache[i]).name == entries[i].name
            &&& cache[i].offset == entries[i].locator.offset
            &&& (match cache[i].cached {
                Some(a) => match p_animation_info(d, entries[i].locator.offset) {
                    Ok((raw, _)) => a == conv_animation(raw),
                    Err(_) => false,
                },
                None => true,
            })
        }
}

/// A parsed ACS file: the facade owns the file image and decodes images,
/// sounds and animations from it on demand. Animations are cached per slot
/// after their first successful load.
pub struct Acs {
    data: Vec<u8>,
    header: AcsHeader,
    character_info: CharacterInfo,
    animation_list: Vec<AnimationCacheEntry>,
    image_list: Vec<ImageEntry>,
    audio_list: Vec<AudioEntry>,
    states: Vec<State>,
}

impl View for Acs {
    type V = AcsView;

    closed spec fn view(&self) -> AcsView {
        AcsView {
            data: self.data@,
            header: self.header,
            character_info: self.character_info@,
            animation_list: self.animation_list.deep_view(),
            image_list: self.image_list.deep_view(),
            audio_list: self.audio_list.deep_view(),
            states: self.states.deep_view(),
        }
    }
}

impl Acs {
    /// The facade's stored values agree with what parsing its own file
    /// image yields, and the animation cache is coherent with the list.
    pub closed spec fn wf(&self) -> bool {
        &&& (match p_header(self.data@, 0) {
            Ok((h, _)) => h == self.header,
            Err(_) => false,
        })
        &&& (match p_character_info(self.data@, self.header.character_info.offset) {
            Ok((ci, _)) => self.character_info@ == conv_character(ci) && self.states.deep_view()
                == ci.states,
            Err(_) => false,
        })
        &&& (match p_animation_list(self.data@, self.header.animation_info) {
            Ok((entries, _)) => cache_coherent(
                self.data@,
                self.animation_list.deep_view(),
                entries,
            ),
            Err(_) => false,
        })
        &&& (match p_image_list(self.data@, self.header.image_info) {
            Ok((imgs, _)) => self.image_list.deep_view() == imgs,
            Err(_) => false,
        })
        &&& (match p_audio_list(self.data@, self.header.audio_info) {
            Ok((auds, _)) => self.audio_list.deep_view() == auds,
            Err(_) => false,
        })
    }

    /// Parse an ACS file image: the header, the character info and the
    /// three top-level lists. Image payloads and animation records stay
    /// unread until asked for.
    pub fn new(data: Vec<u8>) -> (r: Result<Acs, AcsError>)
        ensures
            (match spec_open(data@) {
                Ok(v) => r is Ok && r.unwrap()@ == v && r.unwrap().wf(),
                Err(e) => r == Err::<Acs, AcsError>(e),
            }),
    {
        let mut reader = AcsReader::new(data.as_slice());
        let header: AcsHeader = match reader.read_header() {
            Ok(v) => v,
            Err(e) => {
                return Err(AcsError::Reader(e));
            },
        };
        let raw_character_info: RawCharacterInfo = match reader.read_character_info(
            header.character_info.offset,
        ) {
            Ok(v) => v,
            Err(e) => {
                return Err(AcsError::Reader(e));
            },
        };
        let raw_animations: Vec<AnimationEntry> = match reader.read_animation_list(
            &header.animation_info,
        ) {
            Ok(v) => v,
            Err(e) => {
                return Err(AcsError::Reader(e));
            },
        };
        let image_list: Vec<ImageEntry> = match reader.read_image_list(&header.image_info) {
            Ok(v) => v,
            Err(e) => {
                return Err(AcsError::Reader(e));
            },
        };
        let audio_list: Vec<AudioEntry> = match reader.read_audio_list(&header.audio_info) {
            Ok(v) => v,
            Err(e) => {
                return Err(AcsError::Reader(e));
            },
        };
        let character_info: CharacterInfo = build_character_info(&raw_character_info);
        let states: Vec<State> = build_states(&raw_character_info.states);
        let animation_list: Vec<AnimationCacheEntry> = build_cache_entries(raw_animations);
        Ok(
            Acs {
                data,
                header,
                character_info,
                animation_list,
                image_list,
                audio_list,
                states,
            },
        )
    }

    /// Character metadata.
    pub fn character_info(&self) -> (r: &CharacterInfo)
        ensures
            r@ == self@.character_info,
    {
        &self.character_info
    }

    /// The names of all animations, in the order of the animation list.
    pub fn animation_names(&self) -> (r: Vec<&str>)
        ensures
            r.deep_view() == self@.animation_list.map_values(|e: CacheEntryView| e.name),
    {
        let mut out: Vec<&str> = Vec::new();
        let mut i: usize = 0;
        while i < self.animation_list.len()
            invariant
                i <= self.animation_list@.len(),
                out@.len() == i,
                forall|j: int| 0 <= j < i ==> out@[j]@ == self.animation_list@[j]@.name,
            decreases self.animation_list@.len() - i,
        {
            out.push(self.animation_list[i].name.as_str());
            i = i + 1;
        }
        proof {
            assert(out.deep_view() =~= self@.animation_list.map_values(
                |e: CacheEntryView| e.name,
            ));
        }
        out
    }

    /// All states: the named groupings of animations.
    pub fn states(&self) -> (r: &[State])
        ensures
            r.deep_view() == self@.states,
    {
        self.states.as_slice()
    }

    /// The number of images in the file.
    pub fn image_count(&self) -> (r: usize)
        ensures
            r == self@.image_list.len(),
    {
        self.image_list.len()
    }

    /// The number of sounds in the file.
    pub fn sound_count(&self) -> (r: usize)
        ensures
            r == self@.audio_list.len(),
    {
        self.audio_list.len()
    }

    /// Convert a raw animation record into the facade's form.
    fn convert_animation(&self, raw: &RawAnimationInfo) -> (r: Animation)
        ensures
            r@ == conv_animation(raw@),
    {
        let mut frames: Vec<Frame> = Vec::new();
        let mut i: usize = 0;
        while i < raw.frames.len()
            invariant
                i <= raw.frames@.len(),
                frames@.len() == i,
                forall|j: int| 0 <= j < i ==> #[trigger] frames@[j]@ == conv_frame(raw.frames@[j]@),
            decreases raw.frames@.len() - i,
        {
            let frame: Frame = convert_frame(&raw.frames[i]);
            frames.push(frame);
            i = i + 1;
        }
        proof {
            assert(frames.deep_view() =~= raw.frames.deep_view().map_values(
                |f: FrameInfoView| conv_frame(f),
            ));
        }
        let return_animation: Option<String> = if raw.return_animation.unicode_len() == 0 {
            None
        } else {
            Some(raw.return_animation.clone())
        };
        Animation {
            name: raw.name.clone(),
            frames,
            return_animation,
            transition_type: TransitionType::from(raw.transition_type),
        }
    }

    /// The index of the first animation slot whose name equals `name` under
    /// ASCII case folding.
    fn find_entry(&self, name: &str) -> (r: Option<usize>)
        ensures
            (match r {
                Some(i) => is_first_match(self@.animation_list, name@, i as int),
                None => forall|i: int|
                    0 <= i < self@.animation_list.len() ==> !eq_ignore_case(
                        (#[trigger] self@.animation_list[i]).name,
                        name@,
                    ),
            }),
    {
        let mut i: usize = 0;
        while i < self.animation_list.len()
            invariant
                i <= self.animation_list@.len(),
                forall|j: int|
                    0 <= j < i ==> !eq_ignore_case(
                        (#[trigger] self.animation_list@[j])@.name,
                        name@,
                    ),
            decreases self.animation_list@.len() - i,
        {
            let entry: &AnimationCacheEntry = &self.animation_list[i];
            if str_eq_ignore_case(entry.name.as_str(), name) {
                return Some(i);
            }
            i = i + 1;
        }
        None
    }

    /// Look an animation up by name, case-insensitively; the first matching
    /// slot wins. The record is decoded on the first successful call and
    /// cached in its slot; later calls return the cached value. A failed
    /// load leaves the slot unloaded.
    #[verifier::rlimit(100)]
    pub fn animation(&mut self, name: &str) -> (r: Result<&Animation, AcsError>)
        requires
            old(self).wf(),
        ensures
            final(self).wf(),
            final(self)@.data == old(self)@.data,
            final(self)@.header == old(self)@.header,
            final(self)@.character_info == old(self)@.character_info,
            final(self)@.image_list == old(self)@.image_list,
            final(self)@.audio_list == old(self)@.audio_list,
            final(self)@.states == old(self)@.states,
            (forall|i: int|
                0 <= i < old(self)@.animation_list.len() ==> !eq_ignore_case(
                    (#[trigger] old(self)@.animation_list[i]).name,
                    name@,
                )) ==> {
                &&& r matches Err(e) && e matches AcsError::AnimationNotFound(s) && s@ == name@
                &&& final(self)@ == old(self)@
            },
            forall|i: int|
                is_first_match(old(self)@.animation_list, name@, i) ==> (
                match old(self)@.animation_list[i].cached {
                    Some(a) => r matches Ok(anim) && anim@ == a && final(self)@ == old(self)@,
                    None => (match p_animation_info(
                        old(self)@.data,
                        old(self)@.animation_list[i].offset,
                    ) {
                        Err(e) => r matches Err(e2) && e2 == AcsError::Reader(e) && final(self)@
                            == old(self)@,
                        Ok((raw, _)) => {
                            &&& r matches Ok(anim) && anim@ == conv_animation(raw)
                            &&& final(self)@.animation_list == old(self)@.animation_list.update(
                                i,
                                CacheEntryView {
                                    name: old(self)@.animation_list[i].name,
                                    offset: old(self)@.animation_list[i].offset,
                                    cached: Some(conv_animation(raw)),
                                },
                            )
                        },
                    }),
                }),
    {
        let idx: usize = match self.find_entry(name) {
            Some(i) => i,
            None => {
                return Err(AcsError::AnimationNotFound(String::from_str(name)));
            },
        };
        if self.animation_list[idx].cached.is_some() {
            let entry: &AnimationCacheEntry = &self.animation_list[idx];
            match &entry.cached {
                Some(a) => {
                    return Ok(a);
                },
                None => {
                    proof {
                        assert(false);
                    }
                    return Err(AcsError::AnimationNotFound(String::from_str(name)));
                },
            }
        }
        let offset: u32 = self.animation_list[idx].offset;
        let raw: RawAnimationInfo = {
            let mut reader = AcsReader::new(self.data.as_slice());
            match reader.read_animation_info(offset) {
                Ok(v) => v,
                Err(e) => {
                    return Err(AcsError::Reader(e));
                },
            }
        };
        let animation: Animation = self.convert_animation(&raw);
        let ghost pre_list: Seq<CacheEntryView> = self.animation_list.deep_view();
        let entry: &mut AnimationCacheEntry = &mut self.animation_list[idx];
        entry.cached = Some(animation);
        proof {
            assert(self.animation_list.deep_view() =~= pre_list.update(
                idx as int,
                self.animation_list@[idx as int]@,
            ));
        }
        let entry2: &AnimationCacheEntry = &self.animation_list[idx];
        match &entry2.cached {
            Some(a) => Ok(a),
            None => {
                proof {
                    assert(false);
                }
                Err(AcsError::AnimationNotFound(String::from_str(name)))
            },
        }
    }


    /// Decode one image record against the character's palette: decompress
    /// the payload when flagged, then map indexed pixels to RGBA.
    fn decode_image(&self, raw: RawImageInfo) -> (r: Result<Image, AcsError>)
        ensures
            (match spec_decode_image(raw@, self@.character_info) {
                Ok(iv) => r matches Ok(img) && img@ == iv,
                Err(e) => r matches Err(e2) && e2 == e,
            }),
    {
        let width: u16 = raw.width;
        let height: u16 = raw.height;
        let pixel_data: Vec<u8> = if raw.is_compressed {
            match decompress(raw.data) {
                Ok(v) => v,
                Err(e) => {
                    return Err(AcsError::Decompression(e));
                },
            }
        } else {
            raw.data
        };
        let rgba: Vec<u8> = decode_pixels(
            &pixel_data,
            width,
            height,
            self.character_info.transparent_color,
            &self.character_info.palette,
        );
        Ok(Image { width: width as u32, height: height as u32, data: rgba })
    }

    /// Decode the image at `index`. The result has exactly
    /// `width * height` RGBA pixels.
    pub fn image(&self, index: usize) -> (r: Result<Image, AcsError>)
        requires
            self.wf(),
        ensures
            (match spec_image(self@, index) {
                Ok(iv) => r matches Ok(img) && img@ == iv,
                Err(e) => r matches Err(e2) && e2 == e,
            }),
            (r matches Ok(img) ==> img@.data.len() == 4 * img@.width * img@.height),
    {
        if index >= self.image_list.len() {
            return Err(AcsError::InvalidImageIndex(index));
        }
        let offset: u32 = self.image_list[index].locator.offset;
        let raw: RawImageInfo = {
            let mut reader = AcsReader::new(self.data.as_slice());
            match reader.read_image_info(offset) {
                Ok(v) => v,
                Err(e) => {
                    return Err(AcsError::Reader(e));
                },
            }
        };
        self.decode_image(raw)
    }


    /// Composite one frame: paint its images, last-declared first, onto a
    /// transparent character-sized canvas.
    #[verifier::rlimit(100)]
    fn composite_frame(&self, frame: &Frame) -> (r: Result<Image, AcsError>)
        requires
            self.wf(),
        ensures
            (match spec_composite_frame(self@, frame@) {
                Ok(iv) => r matches Ok(img) && img@ == iv,
                Err(e) => r matches Err(e2) && e2 == e,
            }),
            (r matches Ok(img) ==> img@.width == self@.character_info.width && img@.height
                == self@.character_info.height && img@.data.len() == 4 * img@.width
                * img@.height),
    {
        proof {
            lemma_composite_len(self@, frame@.images);
        }
        let cw: u16 = self.character_info.width;
        let chh: u16 = self.character_info.height;
        let mut canvas: Vec<u8> = zero_pixels(cw, chh);
        let mut i: usize = frame.images.len();
        proof {
            assert(frame@.images.skip(i as int) =~= Seq::<FrameImage>::empty());
        }
        while i > 0
            invariant
                self.wf(),
                cw == self@.character_info.width,
                chh == self@.character_info.height,
                i <= frame.images@.len(),
                canvas@.len() == 4 * (cw as int) * (chh as int),
                spec_composite(self@, frame@.images.skip(i as int)) == Ok::<Seq<u8>, AcsError>(
                    canvas@,
                ),
            decreases i,
        {
            i = i - 1;
            let ghost rest: Seq<FrameImage> = frame@.images.skip(i as int + 1);
            proof {
                assert(frame@.images.skip(i as int).drop_first() =~= rest);
                assert(frame@.images.skip(i as int)[0] == frame@.images[i as int]);
            }
            let fi: &FrameImage = &frame.images[i];
            let img: Image = match self.image(fi.image_index) {
                Ok(v) => v,
                Err(e) => {
                    proof {
                        lemma_composite_err_prefix(self@, frame@.images, i as int);
                    }
                    return Err(e);
                },
            };
            blit_image(&mut canvas, cw, chh, &img, fi.x, fi.y);
        }
        proof {
            assert(frame@.images.skip(0) =~= frame@.images);
        }
        Ok(Image { width: cw as u32, height: chh as u32, data: canvas })
    }

    /// Render one frame of a named animation: resolve the animation (from
    /// the cache, or by decoding its record), check the frame index, and
    /// composite the frame. The result has exactly
    /// `character width * character height` pixels.
    /// Composite one frame of an already resolved animation, after checking
    /// the frame index.
    fn render_resolved(&self, animation: &Animation, frame_index: usize) -> (r: Result<
        Image,
        AcsError,
    >)
        requires
            self.wf(),
        ensures
            (if frame_index < animation@.frames.len() {
                match spec_composite_frame(self@, animation@.frames[frame_index as int]) {
                    Ok(iv) => r matches Ok(img) && img@ == iv,
                    Err(e) => r matches Err(e2) && e2 == e,
                }
            } else {
                r matches Err(e2) && e2 == AcsError::InvalidImageIndex(frame_index)
            }),
            (r matches Ok(img) ==> img@.width == self@.character_info.width && img@.height
                == self@.character_info.height && img@.data.len() == 4 * img@.width
                * img@.height),
    {
        if frame_index < animation.frames.len() {
            self.composite_frame(&animation.frames[frame_index])
        } else {
            Err(AcsError::InvalidImageIndex(frame_index))
        }
    }

    /// Render one frame of a named animation: resolve the animation (from
    /// the cache, or by decoding its record), check the frame index, and
    /// composite the frame. The result has exactly
    /// `character width * character height` pixels.
    #[verifier::rlimit(100)]
    #[verifier::spinoff_prover]
    pub fn render_frame(&self, animation_name: &str, frame_index: usize) -> (r: Result<
        Image,
        AcsError,
    >)
        requires
            self.wf(),
        ensures
            (forall|i: int|
                0 <= i < self@.animation_list.len() ==> !eq_ignore_case(
                    (#[trigger] self@.animation_list[i]).name,
                    animation_name@,
                )) ==> (r matches Err(e) && e matches AcsError::AnimationNotFound(s) && s@
                == animation_name@),
            forall|i: int|
                is_first_match(self@.animation_list, animation_name@, i) ==> (
                match p_animation_info(self@.data, self@.animation_list[i].offset) {
                    Err(e) => self@.animation_list[i].cached is None && (r matches Err(e2)
                        && e2 == AcsError::Reader(e)),
                    Ok((raw, _)) => {
                        let a = conv_animation(raw);
                        if frame_index < a.frames.len() {
                            match spec_composite_frame(self@, a.frames[frame_index as int]) {
                                Ok(iv) => r matches Ok(img) && img@ == iv,
                                Err(e) => r matches Err(e2) && e2 == e,
                            }
                        } else {
                            r matches Err(e2) && e2 == AcsError::InvalidImageIndex(frame_index)
                        }
                    },
                }),
            (r matches Ok(img) ==> img@.width == self@.character_info.width && img@.height
                == self@.character_info.height && img@.data.len() == 4 * img@.width
                * img@.height),
    {
        let idx: usize = match self.find_entry(animation_name) {
            Some(i) => i,
            None => {
                return Err(AcsError::AnimationNotFound(String::from_str(animation_name)));
            },
        };
        let entry: &AnimationCacheEntry = &self.animation_list[idx];
        match &entry.cached {
            Some(cached) => {
                proof {
                    assert(self@.animation_list[idx as int].cached == Some(cached@));
                    assert((match p_animation_info(
                        self@.data,
                        self@.animation_list[idx as int].offset,
                    ) {
                        Ok((raw, _)) => cached@ == conv_animation(raw),
                        Err(_) => false,
                    }));
                }
                self.render_resolved(cached, frame_index)
            },
            None => {
                let offset: u32 = entry.offset;
                let raw: RawAnimationInfo = {
                    let mut reader = AcsReader::new(self.data.as_slice());
                    match reader.read_animation_info(offset) {
                        Ok(v) => v,
                        Err(e) => {
                            return Err(AcsError::Reader(e));
                        },
                    }
                };
                let animation: Animation = self.convert_animation(&raw);
                self.render_resolved(&animation, frame_index)
            },
        }
    }

    /// The sound at `index`: the verbatim WAV bytes named by its entry.
    pub fn sound(&self, index: usize) -> (r: Result<Sound, AcsError>)
        requires
            self.wf(),
        ensures
            (match spec_sound(self@, index) {
                Ok(sv) => r matches Ok(s) && s@ == sv,
                Err(e) => r matches Err(e2) && e2 == e,
            }),
    {
        if index >= self.audio_list.len() {
            return Err(AcsError::InvalidSoundIndex(index));
        }
        let entry: &AudioEntry = &self.audio_list[index];
        let mut reader = AcsReader::new(self.data.as_slice());
        match reader.read_audio_data(entry) {
            Ok(data) => Ok(Sound { data }),
            Err(e) => Err(AcsError::Reader(e)),
        }
    }
}


/// Where some slot's name matches, a first matching slot exists.
pub proof fn lemma_first_match_exists(entries: Seq<CacheEntryView>, name: Seq<char>, i: int)
    requires
        0 <= i < entries.len(),
        eq_ignore_case(entries[i].name, name),
    ensures
        exists|k: int| is_first_match(entries, name, k),
    decreases i,
{
    if forall|j: int| 0 <= j < i ==> !eq_ignore_case((#[trigger] entries[j]).name, name) {
        assert(is_first_match(entries, name, i));
    } else {
        let j = choose|j: int| 0 <= j < i && eq_ignore_case((#[trigger] entries[j]).name, name);
        lemma_first_match_exists(entries, name, j);
    }
}

/// Every listed animation name can be looked up: searching for the name of
/// any slot finds a first matching slot, so the lookup never reports a
/// listed name as missing.
pub proof fn lemma_listed_name_found(entries: Seq<CacheEntryView>, i: int)
    requires
        0 <= i < entries.len(),
    ensures
        exists|k: int| is_first_match(entries, entries[i].name, k),
{
    assert(eq_ignore_case(entries[i].name, entries[i].name));
    lemma_first_match_exists(entries, entries[i].name, i);
}

/// At most one slot is the first match for a name.
pub proof fn lemma_first_match_unique(entries: Seq<CacheEntryView>, name: Seq<char>, i: int, j: int)
    requires
        is_first_match(entries, name, i),
        is_first_match(entries, name, j),
    ensures
        i == j,
{
}

/// The animation delivered for a name carries the decoded record's own
/// name: where the record at the matched slot's offset is named as the
/// slot is (as in a well-formed file), the lookup returns a record whose
/// name equals the name in the list.
pub proof fn lemma_lookup_preserves_name(v: AcsView, k: int, raw: AnimationInfoView)
    requires
        0 <= k < v.animation_list.len(),
        (match p_animation_info(v.data, v.animation_list[k].offset) {
            Ok((r0, _)) => r0 == raw,
            Err(_) => false,
        }),
        raw.name == v.animation_list[k].name,
    ensures
        conv_animation(raw).name == v.animation_list[k].name,
{
}

} // verus!

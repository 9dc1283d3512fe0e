//! Scenario tests of the facade: boundary cases, error reporting and the
//! palette and compositing rules, on small synthetic files.

use acs::reader::{AcsReader, ReaderError};
use acs::{Acs, AcsError, OverlayType, TransitionType};

fn push_u16(out: &mut Vec<u8>, v: u16) {
    out.extend_from_slice(&v.to_le_bytes());
}

fn push_u32(out: &mut Vec<u8>, v: u32) {
    out.extend_from_slice(&v.to_le_bytes());
}

fn push_i16(out: &mut Vec<u8>, v: i16) {
    out.extend_from_slice(&v.to_le_bytes());
}

fn push_i32(out: &mut Vec<u8>, v: i32) {
    out.extend_from_slice(&v.to_le_bytes());
}

fn push_string(out: &mut Vec<u8>, s: &str) {
    let units: Vec<u16> = s.encode_utf16().collect();
    push_u32(out, units.len() as u32);
    if !units.is_empty() {
        for u in &units {
            push_u16(out, *u);
        }
        push_u16(out, 0);
    }
}

/// A minimal single-character file: one palette, one animation with one
/// frame showing image 0 at the origin, the given images, one sound.
/// Layout: header, animation records, character info, localized info,
/// animation list, image records, image list, sounds, audio list.
fn tiny_acs(
    width: u16,
    height: u16,
    transparent: u8,
    palette: &[[u8; 3]],
    anim_names: &[&str],
    images: &[(u16, u16, bool, Vec<u8>)],
    sounds: &[Vec<u8>],
) -> Vec<u8> {
    let mut anim_records: Vec<u8> = Vec::new();
    let mut spans: Vec<(u32, u32)> = Vec::new();
    for name in anim_names {
        let start = anim_records.len();
        push_string(&mut anim_records, name);
        anim_records.push(1); // transition type: return animation
        push_string(&mut anim_records, "");
        push_u16(&mut anim_records, 1); // one frame
        push_u16(&mut anim_records, 1); // one frame image
        push_u32(&mut anim_records, 0);
        push_i16(&mut anim_records, 0);
        push_i16(&mut anim_records, 0);
        push_i16(&mut anim_records, -1); // no sound
        push_u16(&mut anim_records, 10); // duration, 1/100 s
        push_i16(&mut anim_records, -1); // no exit branch
        anim_records.push(0); // no branches
        anim_records.push(0); // no overlays
        spans.push((start as u32, (anim_records.len() - start) as u32));
    }

    let mut charinfo: Vec<u8> = Vec::new();
    push_u16(&mut charinfo, 0);
    push_u16(&mut charinfo, 2);
    let li_pos = charinfo.len();
    push_u32(&mut charinfo, 0);
    push_u32(&mut charinfo, 0);
    for i in 0..16u8 {
        charinfo.push(i);
    }
    push_u16(&mut charinfo, width);
    push_u16(&mut charinfo, height);
    charinfo.push(transparent);
    push_u32(&mut charinfo, 0); // no voice
    push_u16(&mut charinfo, 1);
    push_u16(&mut charinfo, 0);
    charinfo.push(1); // balloon lines
    charinfo.push(10); // chars per line
    charinfo.extend_from_slice(&[0, 0, 0, 0, 0, 0, 0, 0, 0, 0, 0, 0]);
    push_string(&mut charinfo, "");
    push_i32(&mut charinfo, 10);
    push_i32(&mut charinfo, 400);
    charinfo.push(0);
    charinfo.push(0);
    push_u32(&mut charinfo, palette.len() as u32);
    for [r, g, b] in palette {
        charinfo.extend_from_slice(&[*b, *g, *r, 0]);
    }
    charinfo.push(0); // no tray icon
    push_u16(&mut charinfo, 0); // no states

    let mut localized: Vec<u8> = Vec::new();
    push_u16(&mut localized, 1);
    push_u16(&mut localized, 0x0409);
    push_string(&mut localized, "Tiny");
    push_string(&mut localized, "A test character");
    push_string(&mut localized, "");

    let mut image_records: Vec<u8> = Vec::new();
    let mut image_spans: Vec<(u32, u32)> = Vec::new();
    for (w, h, compressed, payload) in images {
        let start = image_records.len();
        image_records.push(0);
        push_u16(&mut image_records, *w);
        push_u16(&mut image_records, *h);
        image_records.push(if *compressed { 1 } else { 0 });
        if *compressed {
            push_u32(&mut image_records, payload.len() as u32);
        }
        image_records.extend_from_slice(payload);
        push_u32(&mut image_records, 0);
        push_u32(&mut image_records, 0);
        image_spans.push((start as u32, (image_records.len() - start) as u32));
    }

    let mut wavs: Vec<u8> = Vec::new();
    let mut wav_spans: Vec<(u32, u32)> = Vec::new();
    for s in sounds {
        wav_spans.push((wavs.len() as u32, s.len() as u32));
        wavs.extend_from_slice(s);
    }

    let rec_base = 36u32;
    let charinfo_off = rec_base + anim_records.len() as u32;
    let localized_off = charinfo_off + charinfo.len() as u32;
    let animlist_off = localized_off + localized.len() as u32;

    let mut anim_list: Vec<u8> = Vec::new();
    push_u32(&mut anim_list, anim_names.len() as u32);
    for (name, (rel, size)) in anim_names.iter().zip(&spans) {
        push_string(&mut anim_list, name);
        push_u32(&mut anim_list, rec_base + rel);
        push_u32(&mut anim_list, *size);
    }

    let imgrec_base = animlist_off + anim_list.len() as u32;
    let imagelist_off = imgrec_base + image_records.len() as u32;

    let mut image_list: Vec<u8> = Vec::new();
    push_u32(&mut image_list, images.len() as u32);
    for (rel, size) in &image_spans {
        push_u32(&mut image_list, imgrec_base + rel);
        push_u32(&mut image_list, *size);
        push_u32(&mut image_list, 0);
    }

    let wav_base = imagelist_off + image_list.len() as u32;
    let audiolist_off = wav_base + wavs.len() as u32;

    let mut audio_list: Vec<u8> = Vec::new();
    push_u32(&mut audio_list, sounds.len() as u32);
    for (rel, size) in &wav_spans {
        push_u32(&mut audio_list, wav_base + rel);
        push_u32(&mut audio_list, *size);
        push_u32(&mut audio_list, 0);
    }

    let mut file: Vec<u8> = Vec::new();
    push_u32(&mut file, 0xABCDABC3);
    push_u32(&mut file, charinfo_off);
    push_u32(&mut file, charinfo.len() as u32);
    push_u32(&mut file, animlist_off);
    push_u32(&mut file, anim_list.len() as u32);
    push_u32(&mut file, imagelist_off);
    push_u32(&mut file, image_list.len() as u32);
    push_u32(&mut file, audiolist_off);
    push_u32(&mut file, audio_list.len() as u32);

    charinfo[li_pos..li_pos + 4].copy_from_slice(&localized_off.to_le_bytes());
    charinfo[li_pos + 4..li_pos + 8].copy_from_slice(&(localized.len() as u32).to_le_bytes());

    file.extend_from_slice(&anim_records);
    file.extend_from_slice(&charinfo);
    file.extend_from_slice(&localized);
    file.extend_from_slice(&anim_list);
    file.extend_from_slice(&image_records);
    file.extend_from_slice(&image_list);
    file.extend_from_slice(&wavs);
    file.extend_from_slice(&audio_list);
    file
}

fn standard_tiny() -> Vec<u8> {
    tiny_acs(
        8,
        8,
        0,
        &[[5, 6, 7], [10, 20, 30], [40, 50, 60]],
        &["Greet"],
        &[(1, 1, false, vec![1, 0, 0, 0])],
        &[b"RIFF".to_vec()],
    )
}

/// Valid magic with zero locators: opening succeeds and every list is
/// empty. The trailing zeros stand in for the absent sections.
#[test]
fn test_open_zero_locators() {
    let mut data: Vec<u8> = vec![0xC3, 0xAB, 0xCD, 0xAB];
    data.extend_from_slice(&[0u8; 96]);
    let acs = Acs::new(data).expect("open should succeed");
    assert!(acs.animation_names().is_empty());
    assert_eq!(acs.image_count(), 0);
    assert_eq!(acs.sound_count(), 0);
}

#[test]
fn test_open_invalid_signature() {
    let data = vec![0xC4, 0xAB, 0xCD, 0xAB, 0, 0, 0, 0];
    match Acs::new(data) {
        Err(AcsError::Reader(ReaderError::InvalidSignature(sig))) => {
            assert_eq!(sig, 0xABCDABC4);
        },
        _ => panic!("expected an invalid-signature error"),
    }
}

#[test]
fn test_open_truncated() {
    let data = vec![0xC3, 0xAB, 0xCD, 0xAB, 0, 0];
    assert!(matches!(
        Acs::new(data),
        Err(AcsError::Reader(ReaderError::UnexpectedEof))
    ));
}

#[test]
fn test_animation_not_found() {
    let mut acs = Acs::new(standard_tiny()).expect("open");
    match acs.animation("does-not-exist") {
        Err(AcsError::AnimationNotFound(name)) => assert_eq!(name, "does-not-exist"),
        _ => panic!("expected AnimationNotFound"),
    }
}

#[test]
fn test_animation_lookup_ignores_case() {
    let mut acs = Acs::new(standard_tiny()).expect("open");
    let anim = acs.animation("gReEt").expect("differing case should match");
    assert_eq!(anim.name, "Greet");
}

#[test]
fn test_animation_is_cached() {
    let mut acs = Acs::new(standard_tiny()).expect("open");
    let frames_first = acs.animation("Greet").expect("load").frames.len();
    let frames_again = acs.animation("Greet").expect("cached").frames.len();
    assert_eq!(frames_first, frames_again);
}

#[test]
fn test_animation_normalization() {
    let mut acs = Acs::new(standard_tiny()).expect("open");
    let anim = acs.animation("Greet").expect("load");
    assert_eq!(anim.transition_type, TransitionType::ReturnAnimation);
    assert!(anim.return_animation.is_none()); // empty string means absent
    let frame = &anim.frames[0];
    assert_eq!(frame.duration_ms, 100); // 10 hundredths of a second
    assert!(frame.sound_index.is_none()); // negative index means absent
    assert!(frame.exit_branch.is_none());
}

/// A pixel holding the transparent index decodes to a clear pixel; any
/// other index takes its palette color with an opaque alpha.
#[test]
fn test_transparent_mapping() {
    let file = tiny_acs(
        4,
        4,
        7,
        &[[10, 20, 30], [40, 50, 60], [70, 80, 90], [0, 0, 0], [0, 0, 0], [0, 0, 0], [0, 0, 0],
            [99, 99, 99]],
        &["Blink"],
        &[
            (1, 1, false, vec![7, 0, 0, 0]), // the transparent index
            (1, 1, false, vec![2, 0, 0, 0]), // an opaque palette index
        ],
        &[],
    );
    let acs = Acs::new(file).expect("open");
    let clear = acs.image(0).expect("image 0");
    assert_eq!(clear.data, vec![0, 0, 0, 0]);
    let opaque = acs.image(1).expect("image 1");
    assert_eq!(opaque.data, vec![70, 80, 90, 255]);
}

/// Every decoded image has exactly `width * height` RGBA pixels.
#[test]
fn test_image_data_length() {
    let file = tiny_acs(
        8,
        8,
        0,
        &[[1, 2, 3], [4, 5, 6]],
        &["Go"],
        &[
            // 3 by 2: rows are stored padded to four bytes
            (3, 2, false, vec![1, 1, 1, 0, 1, 0, 1, 0]),
            (1, 1, false, vec![1, 0, 0, 0]),
        ],
        &[],
    );
    let acs = Acs::new(file).expect("open");
    assert_eq!(acs.image_count(), 2);
    for i in 0..acs.image_count() {
        let img = acs.image(i).expect("image");
        assert_eq!(img.data.len(), (img.width * img.height * 4) as usize);
    }
}

/// Bottom-up source rows come out top-down: the first decoded row is the
/// last stored row.
#[test]
fn test_image_row_flip() {
    let file = tiny_acs(
        4,
        4,
        0,
        &[[0, 0, 0], [100, 0, 0], [0, 100, 0]],
        &["Go"],
        // 1 by 2 image: stored bottom row first holds index 1, top row index 2
        &[(1, 2, false, vec![1, 0, 0, 0, 2, 0, 0, 0])],
        &[],
    );
    let acs = Acs::new(file).expect("open");
    let img = acs.image(0).expect("image");
    // top-down output: first pixel is the stored top row (index 2)
    assert_eq!(&img.data[0..4], &[0, 100, 0, 255]);
    assert_eq!(&img.data[4..8], &[100, 0, 0, 255]);
}

/// A compressed payload runs through the decompressor before the palette.
#[test]
fn test_image_compressed_payload() {
    // compressed stream: leading zero byte, then four literal bytes
    // 1, 0, 0, 0 (the padded row of a 1 by 1 image), written bit by bit
    let mut bits: Vec<u8> = Vec::new();
    bits.extend_from_slice(&[0; 8]); // the leading zero byte
    for byte in [1u8, 0, 0, 0] {
        bits.push(0); // literal control bit
        for i in 0..8 {
            bits.push((byte >> i) & 1);
        }
    }
    // the end marker: a back-reference with three tier ones and a 20-bit
    // offset field of all ones
    bits.extend_from_slice(&[1, 1, 1, 1]);
    bits.extend_from_slice(&[1; 20]);
    let mut stream = vec![0u8; (bits.len() + 7) / 8];
    for (i, b) in bits.iter().enumerate() {
        if *b != 0 {
            stream[i / 8] |= 1 << (i % 8);
        }
    }
    let file = tiny_acs(
        4,
        4,
        0,
        &[[9, 9, 9], [200, 100, 50]],
        &["Go"],
        &[(1, 1, true, stream)],
        &[],
    );
    let acs = Acs::new(file).expect("open");
    let img = acs.image(0).expect("compressed image");
    assert_eq!(img.data, vec![200, 100, 50, 255]);
}

#[test]
fn test_invalid_image_index() {
    let acs = Acs::new(standard_tiny()).expect("open");
    match acs.image(99) {
        Err(AcsError::InvalidImageIndex(i)) => assert_eq!(i, 99),
        _ => panic!("expected InvalidImageIndex"),
    }
}

#[test]
fn test_invalid_sound_index() {
    let acs = Acs::new(standard_tiny()).expect("open");
    match acs.sound(5) {
        Err(AcsError::InvalidSoundIndex(i)) => assert_eq!(i, 5),
        _ => panic!("expected InvalidSoundIndex"),
    }
}

#[test]
fn test_sound_bytes_verbatim() {
    let acs = Acs::new(standard_tiny()).expect("open");
    assert_eq!(acs.sound_count(), 1);
    let sound = acs.sound(0).expect("sound");
    assert_eq!(sound.data, b"RIFF".to_vec());
}

#[test]
fn test_render_frame_unknown_animation() {
    let acs = Acs::new(standard_tiny()).expect("open");
    match acs.render_frame("nothing-here", 0) {
        Err(AcsError::AnimationNotFound(name)) => assert_eq!(name, "nothing-here"),
        _ => panic!("expected AnimationNotFound"),
    }
}

#[test]
fn test_render_frame_index_out_of_range() {
    let acs = Acs::new(standard_tiny()).expect("open");
    match acs.render_frame("Greet", 7) {
        Err(AcsError::InvalidImageIndex(i)) => assert_eq!(i, 7),
        _ => panic!("expected the image-index error kind"),
    }
}

/// Compositing paints the frame image onto a transparent canvas of the
/// character's size; pixels outside the image stay clear.
#[test]
fn test_render_frame_pixels() {
    let acs = Acs::new(standard_tiny()).expect("open");
    let img = acs.render_frame("Greet", 0).expect("render");
    assert_eq!(img.width, 8);
    assert_eq!(img.height, 8);
    assert_eq!(img.data.len(), 8 * 8 * 4);
    // the 1 by 1 image with palette index 1 lands at the origin
    assert_eq!(&img.data[0..4], &[10, 20, 30, 255]);
    // every other pixel stays transparent
    assert_eq!(&img.data[4..8], &[0, 0, 0, 0]);
}

#[test]
fn test_transition_type_mapping() {
    assert_eq!(TransitionType::from(1), TransitionType::ReturnAnimation);
    assert_eq!(TransitionType::from(2), TransitionType::ExitBranch);
    assert_eq!(TransitionType::from(0), TransitionType::NoTransition);
    assert_eq!(TransitionType::from(9), TransitionType::NoTransition);
}

#[test]
fn test_overlay_type_mapping() {
    assert_eq!(OverlayType::from(0), OverlayType::MouthClosed);
    assert_eq!(OverlayType::from(4), OverlayType::MouthWide4);
    assert_eq!(OverlayType::from(6), OverlayType::MouthNarrow);
    assert_eq!(OverlayType::from(77), OverlayType::Unknown(77));
}

/// The reserved byte inside an overlay record is skipped, and the overlay
/// fields after it are read in place.
#[test]
fn test_overlay_record_layout() {
    let mut record: Vec<u8> = Vec::new();
    push_string(&mut record, "Talk");
    record.push(0); // transition type
    push_string(&mut record, "");
    push_u16(&mut record, 1); // one frame
    push_u16(&mut record, 0); // no frame images
    push_i16(&mut record, -1);
    push_u16(&mut record, 5);
    push_i16(&mut record, -1);
    record.push(0); // no branches
    record.push(1); // one overlay
    record.push(3); // overlay type: a wide mouth
    record.push(1); // replacement enabled
    push_u16(&mut record, 7); // image index
    record.push(0); // the reserved byte
    record.push(0); // no region
    push_i16(&mut record, -4);
    push_i16(&mut record, 6);
    push_u16(&mut record, 40);
    push_u16(&mut record, 30);

    let mut reader = AcsReader::new(&record);
    let info = reader.read_animation_info(0).expect("record should parse");
    let overlay = &info.frames[0].overlays[0];
    assert_eq!(overlay.overlay_type, 3);
    assert!(overlay.replace_enabled);
    assert_eq!(overlay.image_index, 7);
    assert_eq!(overlay.x_offset, -4);
    assert_eq!(overlay.y_offset, 6);
    assert_eq!(overlay.width, 40);
    assert_eq!(overlay.height, 30);
    assert!(overlay.region_data.is_none());
}

#[test]
fn test_states_exposed() {
    let acs = Acs::new(standard_tiny()).expect("open");
    assert!(acs.states().is_empty());
    let info = acs.character_info();
    assert_eq!(info.transparent_color, 0);
    assert_eq!(info.palette.len(), 3);
    assert_eq!(info.palette[1], [10, 20, 30, 255]);
    assert_eq!(info.guid[3], 3);
}

//! Tests of the structural decoder and the facade, run against synthetic
//! ACS files assembled byte by byte.

use acs::reader::AcsReader;
use acs::Acs;

fn push_u16(out: &mut Vec<u8>, v: u16) {
    out.extend_from_slice(&v.to_le_bytes());
}

fn push_i16(out: &mut Vec<u8>, v: i16) {
    out.extend_from_slice(&v.to_le_bytes());
}

fn push_u32(out: &mut Vec<u8>, v: u32) {
    out.extend_from_slice(&v.to_le_bytes());
}

fn push_i32(out: &mut Vec<u8>, v: i32) {
    out.extend_from_slice(&v.to_le_bytes());
}

/// A length-prefixed UTF-16LE string with its null terminator.
fn push_string(out: &mut Vec<u8>, s: &str) {
    let units: Vec<u16> = s.encode_utf16().collect();
    push_u32(out, units.len() as u32);
    if !units.is_empty() {
        for u in &units {
            push_u16(out, *u);
        }
        push_u16(out, 0);
    }
}

struct FrameSpec {
    images: Vec<(u32, i16, i16)>,
    sound: i16,
    duration: u16,
    exit: i16,
    branches: Vec<(u16, u16)>,
    /// (type, replace, image index, x, y, width, height)
    overlays: Vec<(u8, u8, u16, i16, i16, u16, u16)>,
}

impl FrameSpec {
    fn simple(image_index: u32, x: i16, y: i16, duration: u16) -> FrameSpec {
        FrameSpec {
            images: vec![(image_index, x, y)],
            sound: -1,
            duration,
            exit: -1,
            branches: Vec::new(),
            overlays: Vec::new(),
        }
    }
}

struct AnimSpec {
    name: String,
    transition: u8,
    return_anim: String,
    frames: Vec<FrameSpec>,
}

struct ImageSpec {
    width: u16,
    height: u16,
    compressed: bool,
    /// The stored payload: padded bottom-up rows when uncompressed, the
    /// compressed stream otherwise.
    payload: Vec<u8>,
}

struct CharSpec {
    name: String,
    description: String,
    width: u16,
    height: u16,
    transparent: u8,
    /// R,G,B palette entries (stored on disk as B,G,R,reserved).
    palette: Vec<[u8; 3]>,
    with_voice: bool,
    states: Vec<(String, Vec<String>)>,
    anims: Vec<AnimSpec>,
    images: Vec<ImageSpec>,
    sounds: Vec<Vec<u8>>,
}

/// Assemble a complete ACS file image. The first animation record starts
/// directly after the 36-byte header.
fn build_acs(spec: &CharSpec) -> Vec<u8> {
    // animation records
    let mut anim_records: Vec<u8> = Vec::new();
    let mut anim_rec_spans: Vec<(u32, u32)> = Vec::new();
    for a in &spec.anims {
        let start = anim_records.len();
        push_string(&mut anim_records, &a.name);
        anim_records.push(a.transition);
        push_string(&mut anim_records, &a.return_anim);
        push_u16(&mut anim_records, a.frames.len() as u16);
        for f in &a.frames {
            push_u16(&mut anim_records, f.images.len() as u16);
            for (idx, x, y) in &f.images {
                push_u32(&mut anim_records, *idx);
                push_i16(&mut anim_records, *x);
                push_i16(&mut anim_records, *y);
            }
            push_i16(&mut anim_records, f.sound);
            push_u16(&mut anim_records, f.duration);
            push_i16(&mut anim_records, f.exit);
            anim_records.push(f.branches.len() as u8);
            for (fi, p) in &f.branches {
                push_u16(&mut anim_records, *fi);
                push_u16(&mut anim_records, *p);
            }
            anim_records.push(f.overlays.len() as u8);
            for (ot, rep, ii, x, y, w, h) in &f.overlays {
                anim_records.push(*ot);
                anim_records.push(*rep);
                push_u16(&mut anim_records, *ii);
                anim_records.push(0); // reserved byte
                anim_records.push(0); // no region
                push_i16(&mut anim_records, *x);
                push_i16(&mut anim_records, *y);
                push_u16(&mut anim_records, *w);
                push_u16(&mut anim_records, *h);
            }
        }
        anim_rec_spans.push((start as u32, (anim_records.len() - start) as u32));
    }

    // character info (localized locator patched later)
    let mut charinfo: Vec<u8> = Vec::new();
    push_u16(&mut charinfo, 1); // minor version
    push_u16(&mut charinfo, 2); // major version
    let li_locator_pos = charinfo.len();
    push_u32(&mut charinfo, 0); // localized offset, patched
    push_u32(&mut charinfo, 0); // localized size, patched
    for i in 0..16u8 {
        charinfo.push(i); // GUID
    }
    push_u16(&mut charinfo, spec.width);
    push_u16(&mut charinfo, spec.height);
    charinfo.push(spec.transparent);
    push_u32(&mut charinfo, if spec.with_voice { 0x20 } else { 0x00 });
    push_u16(&mut charinfo, 1); // animation-set major
    push_u16(&mut charinfo, 0); // animation-set minor
    if spec.with_voice {
        for i in 0..16u8 {
            charinfo.push(0x10 + i); // TTS engine GUID
        }
        for i in 0..16u8 {
            charinfo.push(0x30 + i); // TTS mode GUID
        }
        push_u32(&mut charinfo, 5); // speed
        push_u16(&mut charinfo, 9); // pitch
        charinfo.push(0); // no extra block
    }
    // balloon
    charinfo.push(2); // lines
    charinfo.push(20); // chars per line
    charinfo.extend_from_slice(&[0x11, 0x22, 0x33, 0x00]); // fg as B,G,R,reserved
    charinfo.extend_from_slice(&[0x44, 0x55, 0x66, 0x00]); // bg
    charinfo.extend_from_slice(&[0x77, 0x88, 0x99, 0x00]); // border
    push_string(&mut charinfo, "Arial");
    push_i32(&mut charinfo, 12); // font height
    push_i32(&mut charinfo, 400); // font weight
    charinfo.push(0); // italic
    charinfo.push(0); // charset
    // palette, stored B,G,R,reserved
    push_u32(&mut charinfo, spec.palette.len() as u32);
    for [r, g, b] in &spec.palette {
        charinfo.extend_from_slice(&[*b, *g, *r, 0]);
    }
    charinfo.push(0); // no tray icon
    push_u16(&mut charinfo, spec.states.len() as u16);
    for (name, anims) in &spec.states {
        push_string(&mut charinfo, name);
        push_u16(&mut charinfo, anims.len() as u16);
        for a in anims {
            push_string(&mut charinfo, a);
        }
    }

    // localized info
    let mut localized: Vec<u8> = Vec::new();
    push_u16(&mut localized, 1);
    push_u16(&mut localized, 0x0409);
    push_string(&mut localized, &spec.name);
    push_string(&mut localized, &spec.description);
    push_string(&mut localized, "");

    // image records
    let mut image_records: Vec<u8> = Vec::new();
    let mut image_spans: Vec<(u32, u32)> = Vec::new();
    for im in &spec.images {
        let start = image_records.len();
        image_records.push(0); // reserved byte
        push_u16(&mut image_records, im.width);
        push_u16(&mut image_records, im.height);
        image_records.push(if im.compressed { 1 } else { 0 });
        if im.compressed {
            push_u32(&mut image_records, im.payload.len() as u32);
        }
        image_records.extend_from_slice(&im.payload);
        push_u32(&mut image_records, 0); // region compressed size
        push_u32(&mut image_records, 0); // region uncompressed size
        image_spans.push((start as u32, (image_records.len() - start) as u32));
    }

    // sound blobs
    let mut wavs: Vec<u8> = Vec::new();
    let mut wav_spans: Vec<(u32, u32)> = Vec::new();
    for snd in &spec.sounds {
        wav_spans.push((wavs.len() as u32, snd.len() as u32));
        wavs.extend_from_slice(snd);
    }

    // layout
    let rec_base = 36u32;
    let charinfo_off = rec_base + anim_records.len() as u32;
    let localized_off = charinfo_off + charinfo.len() as u32;
    let animlist_off = localized_off + localized.len() as u32;

    let mut anim_list: Vec<u8> = Vec::new();
    push_u32(&mut anim_list, spec.anims.len() as u32);
    for (a, (rel, size)) in spec.anims.iter().zip(&anim_rec_spans) {
        push_string(&mut anim_list, &a.name);
        push_u32(&mut anim_list, rec_base + rel);
        push_u32(&mut anim_list, *size);
    }

    let imgrec_base = animlist_off + anim_list.len() as u32;
    let imagelist_off = imgrec_base + image_records.len() as u32;

    let mut image_list: Vec<u8> = Vec::new();
    push_u32(&mut image_list, spec.images.len() as u32);
    for (rel, size) in &image_spans {
        push_u32(&mut image_list, imgrec_base + rel);
        push_u32(&mut image_list, *size);
        push_u32(&mut image_list, 0); // checksum
    }

    let wav_base = imagelist_off + image_list.len() as u32;
    let audiolist_off = wav_base + wavs.len() as u32;

    let mut audio_list: Vec<u8> = Vec::new();
    push_u32(&mut audio_list, spec.sounds.len() as u32);
    for (rel, size) in &wav_spans {
        push_u32(&mut audio_list, wav_base + rel);
        push_u32(&mut audio_list, *size);
        push_u32(&mut audio_list, 0); // checksum
    }

    // header
    let mut file: Vec<u8> = Vec::new();
    push_u32(&mut file, 0xABCDABC3);
    push_u32(&mut file, charinfo_off);
    push_u32(&mut file, charinfo.len() as u32);
    push_u32(&mut file, animlist_off);
    push_u32(&mut file, anim_list.len() as u32);
    push_u32(&mut file, imagelist_off);
    push_u32(&mut file, image_list.len() as u32);
    push_u32(&mut file, audiolist_off);
    push_u32(&mut file, audio_list.len() as u32);

    // patch the localized locator inside the character info
    let li_bytes = (localized_off).to_le_bytes();
    charinfo[li_locator_pos..li_locator_pos + 4].copy_from_slice(&li_bytes);
    let ls_bytes = (localized.len() as u32).to_le_bytes();
    charinfo[li_locator_pos + 4..li_locator_pos + 8].copy_from_slice(&ls_bytes);

    file.extend_from_slice(&anim_records);
    file.extend_from_slice(&charinfo);
    file.extend_from_slice(&localized);
    file.extend_from_slice(&anim_list);
    file.extend_from_slice(&image_records);
    file.extend_from_slice(&image_list);
    file.extend_from_slice(&wavs);
    file.extend_from_slice(&audio_list);
    file
}

/// A stand-in for the Bonzi character: a 200 by 160 canvas, a voice
/// descriptor, two animations and one 2 by 2 image.
fn bonzi_bytes() -> Vec<u8> {
    build_acs(&CharSpec {
        name: "Bonzi".to_string(),
        description: "A purple gorilla".to_string(),
        width: 200,
        height: 160,
        transparent: 0,
        palette: vec![[0, 0, 0], [200, 40, 40], [40, 200, 40], [40, 40, 200]],
        with_voice: true,
        states: vec![("Greeting".to_string(), vec!["Greet".to_string()])],
        anims: vec![
            AnimSpec {
                name: "Greet".to_string(),
                transition: 1,
                return_anim: "Greet".to_string(),
                frames: vec![FrameSpec {
                    images: vec![(0, 10, 20)],
                    sound: 0,
                    duration: 10,
                    exit: -1,
                    branches: vec![(0, 100)],
                    overlays: vec![(3, 1, 0, 1, 2, 4, 5)],
                }],
            },
            AnimSpec {
                name: "Wave".to_string(),
                transition: 0,
                return_anim: String::new(),
                frames: vec![FrameSpec::simple(0, 0, 0, 25)],
            },
        ],
        images: vec![ImageSpec {
            width: 2,
            height: 2,
            compressed: false,
            // bottom-up padded rows: bottom row pixels (1, 2), top row (3, 0)
            payload: vec![1, 2, 0, 0, 3, 0, 0, 0],
        }],
        sounds: vec![b"RIFF\x04\x00\x00\x00WAVE".to_vec()],
    })
}

/// A stand-in for the Clippit character: no voice descriptor.
fn clippit_bytes() -> Vec<u8> {
    build_acs(&CharSpec {
        name: "Clippit".to_string(),
        description: "A paperclip".to_string(),
        width: 124,
        height: 93,
        transparent: 0,
        palette: vec![[0, 0, 0], [255, 255, 0]],
        with_voice: false,
        states: Vec::new(),
        anims: vec![AnimSpec {
            name: "Idle".to_string(),
            transition: 2,
            return_anim: String::new(),
            frames: vec![FrameSpec::simple(0, 1, 1, 8)],
        }],
        images: vec![ImageSpec {
            width: 1,
            height: 1,
            compressed: false,
            payload: vec![1, 0, 0, 0],
        }],
        sounds: Vec::new(),
    })
}

#[test]
fn test_read_header() {
    let bonzi = bonzi_bytes();
    let mut reader = AcsReader::new(&bonzi);
    let header = reader.read_header().expect("Failed to read header");

    println!("Header: {:?}", header);
    println!(
        "Character info at offset: {}, size: {}",
        header.character_info.offset, header.character_info.size
    );
    println!(
        "Animation info at offset: {}, size: {}",
        header.animation_info.offset, header.animation_info.size
    );
    println!(
        "Image info at offset: {}, size: {}",
        header.image_info.offset, header.image_info.size
    );
    println!(
        "Audio info at offset: {}, size: {}",
        header.audio_info.offset, header.audio_info.size
    );
}

#[test]
fn test_read_character_info_step_by_step() {
    let bonzi = bonzi_bytes();
    let mut reader = AcsReader::new(&bonzi);
    let header = reader.read_header().expect("Failed to read header");

    println!("File size: {} bytes", bonzi.len());
    println!(
        "Character info at offset {}, size {}",
        header.character_info.offset, header.character_info.size
    );

    reader.seek(header.character_info.offset as u64);

    let minor_version = reader.read_u16().expect("minor_version");
    let major_version = reader.read_u16().expect("major_version");
    println!("Version: {}.{}", major_version, minor_version);

    let loc_offset = reader.read_u32().expect("loc_offset");
    let loc_size = reader.read_u32().expect("loc_size");
    println!("Localized info locator: offset={}, size={}", loc_offset, loc_size);

    let mut guid = [0u8; 16];
    for i in 0..16 {
        guid[i] = reader.read_u8().expect("guid byte");
    }
    println!("GUID: {:02x?}", guid);

    let width = reader.read_u16().expect("width");
    let height = reader.read_u16().expect("height");
    println!("Dimensions: {}x{}", width, height);

    let transparent_color = reader.read_u8().expect("transparent_color");
    println!("Transparent color: {}", transparent_color);

    let flags = reader.read_u32().expect("flags");
    println!("Flags: 0x{:08x}", flags);

    let anim_set_major = reader.read_u16().expect("anim_set_major");
    let anim_set_minor = reader.read_u16().expect("anim_set_minor");
    println!("Anim set version: {}.{}", anim_set_major, anim_set_minor);

    println!("Bit 4 (voice output): {}", flags & 0x10 != 0);
    println!("Bit 5 (voiceinfo present): {}", flags & 0x20 != 0);

    println!("Current position: {}", reader.position());

    // the voice descriptor follows, since bit 5 is set in this file
    let mut guid1 = [0u8; 16];
    for i in 0..16 {
        guid1[i] = reader.read_u8().expect("guid1");
    }
    println!("TTS Engine GUID: {:02x?}", guid1);

    let mut guid2 = [0u8; 16];
    for i in 0..16 {
        guid2[i] = reader.read_u8().expect("guid2");
    }
    println!("TTS Mode GUID: {:02x?}", guid2);

    let speed = reader.read_u32().expect("speed");
    let pitch = reader.read_u16().expect("pitch");
    let extra_flag = reader.read_u8().expect("extra_flag");
    println!("Speed: {}, Pitch: {}, Extra flag: {}", speed, pitch, extra_flag);
    assert_eq!(speed, 5);
    assert_eq!(pitch, 9);
    assert_eq!(extra_flag, 0);

    // balloon
    let num_lines = reader.read_u8().expect("num_lines");
    let chars_per_line = reader.read_u8().expect("chars_per_line");
    println!("Num lines: {}, Chars per line: {}", num_lines, chars_per_line);

    let fg_b = reader.read_u8().expect("fg_b");
    let fg_g = reader.read_u8().expect("fg_g");
    let fg_r = reader.read_u8().expect("fg_r");
    let _fg_reserved = reader.read_u8().expect("fg_reserved");
    println!("FG color: ({}, {}, {})", fg_r, fg_g, fg_b);

    for _ in 0..8 {
        reader.read_u8().expect("color byte");
    }

    let font_len = reader.read_u32().expect("font_len");
    println!("Font name length: {}", font_len);
    if font_len > 0 && font_len < 1000 {
        for _ in 0..((font_len + 1) * 2) {
            reader.read_u8().expect("font byte");
        }
    }

    let font_height = reader.read_i32().expect("font_height");
    let font_weight = reader.read_i32().expect("font_weight");
    let italic = reader.read_u8().expect("italic");
    let charset = reader.read_u8().expect("charset");
    println!(
        "Font height: {}, weight: {}, italic: {}, charset: {}",
        font_height, font_weight, italic, charset
    );

    let palette_count = reader.read_u32().expect("palette_count");
    println!("Palette count: {}", palette_count);
    for _ in 0..palette_count {
        reader.read_u8().expect("b");
        reader.read_u8().expect("g");
        reader.read_u8().expect("r");
        reader.read_u8().expect("reserved");
    }

    let has_tray_icon = reader.read_u8().expect("tray_icon_flag");
    println!("Has tray icon: {}", has_tray_icon);

    let state_count = reader.read_u16().expect("state_count");
    println!("State count: {}", state_count);
    assert_eq!(state_count, 1);
}

#[test]
fn test_read_character_info() {
    let bonzi = bonzi_bytes();
    let mut reader = AcsReader::new(&bonzi);
    let header = reader.read_header().expect("Failed to read header");

    println!("Reading character info from offset {}", header.character_info.offset);
    let char_info = reader
        .read_character_info(header.character_info.offset)
        .expect("Failed to read character info");

    println!("Character info: {:?}", char_info);
    println!("Name: {:?}", char_info.localized_info.first().map(|l| &l.name));
    println!("Dimensions: {}x{}", char_info.width, char_info.height);
    assert_eq!(char_info.width, 200);
    assert_eq!(char_info.height, 160);
    assert_eq!(char_info.localized_info[0].name, "Bonzi");
    assert!(char_info.voice_info.is_some());
    // palette colors arrive normalized to R,G,B
    assert_eq!(char_info.palette[1], [200, 40, 40]);
}

#[test]
fn test_load_bonzi() {
    let acs = Acs::new(bonzi_bytes()).expect("Failed to load Bonzi.acs");
    let info = acs.character_info();

    assert_eq!(info.name, "Bonzi");
    assert_eq!(info.width, 200);
    assert_eq!(info.height, 160);
}

#[test]
fn test_bonzi_has_animations() {
    let acs = Acs::new(bonzi_bytes()).expect("Failed to load Bonzi.acs");
    let names = acs.animation_names();

    assert!(!names.is_empty(), "Expected animations, got none");

    let names_lower: Vec<String> = names.iter().map(|n| n.to_lowercase()).collect();
    assert!(
        names_lower.iter().any(|n| n.contains("greet") || n.contains("wave")),
        "Expected a greeting/wave animation"
    );
}

#[test]
fn test_bonzi_read_animation_info() {
    let bonzi = bonzi_bytes();
    let mut reader = AcsReader::new(&bonzi);
    let header = reader.read_header().expect("Failed to read header");

    println!(
        "Animation info at offset {}, size {}",
        header.animation_info.offset, header.animation_info.size
    );

    let anim_list = reader
        .read_animation_list(&header.animation_info)
        .expect("Failed to read animation list");
    println!("Found {} animations", anim_list.len());

    for (i, entry) in anim_list.iter().take(5).enumerate() {
        println!(
            "  {}: {} at offset {}, size {}",
            i, entry.name, entry.locator.offset, entry.locator.size
        );
    }

    let mut list_end_pos = header.animation_info.offset + 4;
    for entry in &anim_list {
        let name_len = entry.name.len();
        list_end_pos += 4 + (name_len as u32 + 1) * 2 + 8;
    }
    println!("Estimated list end position: {}", list_end_pos);
    println!(
        "Animation info block: {} to {}",
        header.animation_info.offset,
        header.animation_info.offset + header.animation_info.size
    );

    // the first animation record sits at absolute offset 36
    println!("Manually reading animation info from offset 36:");
    reader.seek(36);

    let name = reader.read_string().expect("name");
    println!("  Name: {}", name);
    assert_eq!(name, "Greet");

    let trans_type = reader.read_u8().expect("trans");
    println!("  Transition type: {}", trans_type);

    let return_anim = reader.read_string().expect("return_anim");
    println!("  Return animation: {:?}", return_anim);

    let frame_count = reader.read_u16().expect("frame_count") as usize;
    println!("  Frame count: {}", frame_count);
    println!("  Current position before frames: {}", reader.position());

    let image_count = reader.read_u16().expect("image_count") as usize;
    println!("  Image count: {}", image_count);

    for i in 0..image_count {
        let img_index = reader.read_u32().expect("img_index");
        let x = reader.read_i16().expect("x");
        let y = reader.read_i16().expect("y");
        println!("    Image {}: index={}, pos=({}, {})", i, img_index, x, y);
    }

    let sound_index = reader.read_i16().expect("sound_index");
    println!("  Sound index: {}", sound_index);

    let duration = reader.read_u16().expect("duration");
    println!("  Duration: {}", duration);

    let exit_branch = reader.read_i16().expect("exit_branch");
    println!("  Exit branch: {}", exit_branch);

    let branch_count = reader.read_u8().expect("branch_count") as usize;
    println!("  Branch count: {}", branch_count);

    for _ in 0..branch_count {
        reader.read_u16().ok(); // frame index
        reader.read_u16().ok(); // probability
    }

    let overlay_count = reader.read_u8().expect("overlay_count") as usize;
    println!("  Overlay count: {}", overlay_count);
    println!("  Position after first frame: {}", reader.position());
}

#[test]
fn test_bonzi_render_frame() {
    let mut acs = Acs::new(bonzi_bytes()).expect("Failed to load Bonzi.acs");

    let anim_name = {
        let names = acs.animation_names();
        assert!(!names.is_empty());
        names[0].to_string()
    };

    println!("Testing animation: {}", anim_name);

    let frame_count = {
        let anim = acs.animation(&anim_name).expect("Failed to get animation");
        anim.frames.len()
    };
    println!("Animation has {} frames", frame_count);
    assert!(frame_count > 0, "Animation should have at least one frame");

    let img = acs.render_frame(&anim_name, 0).expect("Failed to render frame 0");
    println!("Rendered frame: {}x{}, {} bytes", img.width, img.height, img.data.len());

    assert_eq!(img.width, 200);
    assert_eq!(img.height, 160);
    assert_eq!(img.data.len(), 200 * 160 * 4); // RGBA
}

#[test]
fn test_clippit_read_header() {
    let clippit = clippit_bytes();
    let mut reader = AcsReader::new(&clippit);
    let header = reader.read_header().expect("Failed to read header");

    println!("Header: {:?}", header);
    println!("File size: {} bytes", clippit.len());
    println!(
        "Character info at offset: {}, size: {}",
        header.character_info.offset, header.character_info.size
    );
    println!(
        "Animation info at offset: {}, size: {}",
        header.animation_info.offset, header.animation_info.size
    );
    println!(
        "Image info at offset: {}, size: {}",
        header.image_info.offset, header.image_info.size
    );
    println!(
        "Audio info at offset: {}, size: {}",
        header.audio_info.offset, header.audio_info.size
    );
}

#[test]
fn test_clippit_character_info_step_by_step() {
    let clippit = clippit_bytes();
    let mut reader = AcsReader::new(&clippit);
    let header = reader.read_header().expect("Failed to read header");

    println!("File size: {} bytes", clippit.len());
    println!(
        "Character info at offset {}, size {}",
        header.character_info.offset, header.character_info.size
    );

    reader.seek(header.character_info.offset as u64);

    let minor_version = reader.read_u16().expect("minor_version");
    let major_version = reader.read_u16().expect("major_version");
    println!("Version: {}.{}", major_version, minor_version);

    let loc_offset = reader.read_u32().expect("loc_offset");
    let loc_size = reader.read_u32().expect("loc_size");
    println!("Localized info locator: offset={}, size={}", loc_offset, loc_size);

    let mut guid = [0u8; 16];
    for i in 0..16 {
        guid[i] = reader.read_u8().expect("guid byte");
    }
    println!("GUID: {:02x?}", guid);

    let width = reader.read_u16().expect("width");
    let height = reader.read_u16().expect("height");
    println!("Dimensions: {}x{}", width, height);
    assert_eq!(width, 124);
    assert_eq!(height, 93);

    let transparent_color = reader.read_u8().expect("transparent_color");
    println!("Transparent color: {}", transparent_color);

    let flags = reader.read_u32().expect("flags");
    println!("Flags: 0x{:08x}", flags);

    let anim_set_major = reader.read_u16().expect("anim_set_major");
    let anim_set_minor = reader.read_u16().expect("anim_set_minor");
    println!("Anim set version: {}.{}", anim_set_major, anim_set_minor);

    // bit 5 gates the voice descriptor; this file has it clear
    let has_voice = flags & 0x20 != 0;
    println!("Bit 4 (voice output flag): {}", flags & 0x10 != 0);
    println!("Bit 5 (voiceinfo present): {}", has_voice);
    assert!(!has_voice);

    if has_voice {
        let mut guid1 = [0u8; 16];
        for i in 0..16 {
            guid1[i] = reader.read_u8().expect("guid1");
        }
        println!("TTS Engine GUID: {:02x?}", guid1);

        let mut guid2 = [0u8; 16];
        for i in 0..16 {
            guid2[i] = reader.read_u8().expect("guid2");
        }
        println!("TTS Mode GUID: {:02x?}", guid2);

        let speed = reader.read_u32().expect("speed");
        let pitch = reader.read_u16().expect("pitch");
        let extra_flag = reader.read_u8().expect("extra_flag");
        println!("Speed: {}, Pitch: {}, Extra flag: {}", speed, pitch, extra_flag);
    } else {
        println!("Skipping VOICEINFO (bit 5 disabled)");
    }

    // balloon
    let num_lines = reader.read_u8().expect("num_lines");
    let chars_per_line = reader.read_u8().expect("chars_per_line");
    println!("Num lines: {}, Chars per line: {}", num_lines, chars_per_line);

    let fg_b = reader.read_u8().expect("fg_b");
    let fg_g = reader.read_u8().expect("fg_g");
    let fg_r = reader.read_u8().expect("fg_r");
    let _fg_reserved = reader.read_u8().expect("fg_reserved");
    println!("FG color: ({}, {}, {})", fg_r, fg_g, fg_b);

    for _ in 0..8 {
        reader.read_u8().expect("color byte");
    }

    let font_len = reader.read_u32().expect("font_len");
    println!("Font name length: {}", font_len);
    if font_len > 0 && font_len < 1000 {
        for _ in 0..((font_len + 1) * 2) {
            reader.read_u8().expect("font byte");
        }
    }

    let font_height = reader.read_i32().expect("font_height");
    let font_weight = reader.read_i32().expect("font_weight");
    let italic = reader.read_u8().expect("italic");
    let charset = reader.read_u8().expect("charset");
    println!(
        "Font height: {}, weight: {}, italic: {}, charset: {}",
        font_height, font_weight, italic, charset
    );

    let palette_count = reader.read_u32().expect("palette_count");
    println!("Palette count: {}", palette_count);
    for _ in 0..palette_count {
        reader.read_u8().expect("b");
        reader.read_u8().expect("g");
        reader.read_u8().expect("r");
        reader.read_u8().expect("reserved");
    }

    let has_tray_icon = reader.read_u8().expect("tray_icon_flag");
    println!("Has tray icon: {}", has_tray_icon);

    let state_count = reader.read_u16().expect("state_count");
    println!("State count: {}", state_count);
}

#[test]
fn test_clippit_read_character_info() {
    let clippit = clippit_bytes();
    let mut reader = AcsReader::new(&clippit);
    let header = reader.read_header().expect("Failed to read header");

    println!("Reading character info from offset {}", header.character_info.offset);
    let char_info = reader
        .read_character_info(header.character_info.offset)
        .expect("Failed to read character info");

    println!("Character info: {:?}", char_info);
    println!("Name: {:?}", char_info.localized_info.first().map(|l| &l.name));
    println!("Dimensions: {}x{}", char_info.width, char_info.height);
    assert!(char_info.voice_info.is_none());
}

#[test]
fn test_load_clippit() {
    let acs = Acs::new(clippit_bytes()).expect("Failed to load clippit.acs");
    let info = acs.character_info();

    println!("Clippit name: {:?}", info.name);
    println!("Clippit dimensions: {}x{}", info.width, info.height);
    println!("Clippit description: {:?}", info.description);
    assert_eq!(info.name, "Clippit");
}

#[test]
fn test_clippit_render_frame() {
    let mut acs = Acs::new(clippit_bytes()).expect("Failed to load clippit.acs");

    let anim_name = {
        let names = acs.animation_names();
        assert!(!names.is_empty());
        println!("Clippit animations: {:?}", names);
        names[0].to_string()
    };

    println!("Testing animation: {}", anim_name);

    let frame_count = {
        let anim = acs.animation(&anim_name).expect("Failed to get animation");
        anim.frames.len()
    };
    println!("Animation has {} frames", frame_count);

    let img = acs.render_frame(&anim_name, 0).expect("Failed to render frame 0");
    println!("Rendered frame: {}x{}, {} bytes", img.width, img.height, img.data.len());
    assert!(!img.data.is_empty());
    // the single opaque pixel lands at canvas position (1, 1)
    let base = ((1 * 124 + 1) * 4) as usize;
    assert_eq!(&img.data[base..base + 4], &[255, 255, 0, 255]);
}

use rbxl_editor::assets::{
    accept_image_bytes, decode_image_bytes, download_candidates, extract_asset_id,
    get_cached_image, get_cached_mesh, get_cached_raw, image_cache, play_cached_or_fetch,
    procedural_texture, raw_cache, store_cached_image, store_cached_raw, AssetCache, AudioRequest,
    ImageLookup, MeshLookup, ProceduralTexture,
};
use rbxl_editor::bundled::{get_builtin_asset, get_builtin_image_bytes, get_builtin_mesh_bytes};
use rbxl_editor::mesh::{mesh_counts_cut_off, mesh_format, parse_binary_mesh_v2_v3, MeshFormat};
use rbxl_editor::textures::{
    generate_brick_texture, generate_cobblestone_texture, generate_concrete_texture,
    generate_diamond_plate_texture, generate_grass_texture, generate_texture,
    generate_wood_planks_texture, DecodedImage, Material,
};

fn id(s: &str) -> Option<String> {
    extract_asset_id(s)
}

#[test]
fn asset_ids_from_references() {
    assert_eq!(id("rbxassetid://1818"), Some("1818".to_string()));
    assert_eq!(id("http://www.roblox.com/asset/?id=12345"), Some("12345".to_string()));
    assert_eq!(id("  987654  "), Some("987654".to_string()));
    assert_eq!(id("https://assetdelivery.roblox.com/v1/assetId/555?x=1"), Some("555".to_string()));
    assert_eq!(id("rbxassetid://abc1234"), Some("1234".to_string()));
    assert_eq!(id("a1b2c3d4"), Some("1234".to_string()));
    assert_eq!(id("id=77&rbxassetid://88"), Some("77".to_string()));
}

#[test]
fn asset_ids_rejected() {
    assert_eq!(id(""), None);
    assert_eq!(id("   "), None);
    assert_eq!(id("abc"), None);
    assert_eq!(id("rbxassetid://abc123"), None);
    assert_eq!(id("id=x12"), None);
}

#[test]
fn raw_cache_read_after_write() {
    let mut c = raw_cache();
    assert_eq!(get_cached_raw(&c, "rbxassetid://5"), None);
    store_cached_raw(&mut c, "rbxassetid://5".to_string(), vec![1, 2, 3]);
    store_cached_raw(&mut c, "rbxassetid://6".to_string(), vec![9]);
    assert_eq!(get_cached_raw(&c, "rbxassetid://5"), Some(vec![1, 2, 3]));
    store_cached_raw(&mut c, "rbxassetid://5".to_string(), vec![4]);
    assert_eq!(get_cached_raw(&c, "rbxassetid://5"), Some(vec![4]));
    assert_eq!(get_cached_raw(&c, "rbxassetid://6"), Some(vec![9]));
    assert_eq!(get_cached_raw(&c, "rbxassetid://7"), None);
}

#[test]
fn generic_cache_keeps_one_entry_per_key() {
    let mut c: AssetCache<u32> = AssetCache::new();
    c.insert("a".to_string(), 1);
    c.insert("b".to_string(), 2);
    c.insert("a".to_string(), 3);
    assert_eq!(c.get("a"), Some(&3));
    assert_eq!(c.get("b"), Some(&2));
    assert_eq!(c.get("c"), None);
}

#[test]
fn sounds_play_when_cached_and_download_otherwise() {
    let mut c = raw_cache();
    match play_cached_or_fetch(&c, "rbxassetid://42") {
        AudioRequest::Fetch { id, message } => {
            assert_eq!(id, "rbxassetid://42");
            assert_eq!(message, "audio not cached yet; started download");
        }
        AudioRequest::Play(_) => panic!("nothing is cached yet"),
    }
    store_cached_raw(&mut c, "rbxassetid://42".to_string(), vec![0x4f, 0x67, 0x67, 0x53]);
    match play_cached_or_fetch(&c, "rbxassetid://42") {
        AudioRequest::Play(bytes) => assert_eq!(bytes, vec![0x4f, 0x67, 0x67, 0x53]),
        AudioRequest::Fetch { .. } => panic!("the sound is cached"),
    }
}

fn brick_oracle(x: usize, y: usize) -> (u8, u8, u8) {
    let row = y / 16;
    let offset_x = if row % 2 == 1 { x + 16 } else { x };
    if offset_x % 32 < 2 || y % 16 < 2 {
        (140, 135, 130)
    } else {
        let grain = (((x * 17 + y * 31) % 23) as i32 - 11) * 2;
        let base = 210 + grain;
        (base.clamp(170, 240) as u8, (base - 10).clamp(160, 230) as u8, (base - 20).clamp(150, 220) as u8)
    }
}

fn diamond_oracle(x: usize, y: usize) -> (u8, u8, u8) {
    let lx = (x % 32) as i32 - 16;
    let ly = (y % 32) as i32 - 16;
    let d1 = (lx.abs() * 2 + ly.abs()).abs();
    let d2 = (lx.abs() + ly.abs() * 2).abs();
    if d1 < 14 || d2 < 14 {
        let shine = if lx + ly < 0 { 245 } else { 160 };
        (shine, shine, shine)
    } else {
        (190, 190, 195)
    }
}

fn wood_oracle(x: usize, y: usize) -> (u8, u8, u8) {
    if x % 16 < 2 {
        (90, 60, 40)
    } else {
        let grain = (((y * 13 + x * 3) % 19) as i32 - 9) * 3;
        let val = (190 + grain).clamp(140, 230);
        (val as u8, (val - 25).max(0) as u8, (val - 55).max(0) as u8)
    }
}

fn cobble_oracle(x: usize, y: usize) -> (u8, u8, u8) {
    let cx = ((x / 16) * 16 + 8) as f32;
    let cy = ((y / 16) * 16 + 8) as f32;
    let dx = (x as f32) - cx;
    let dy = (y as f32) - cy;
    let r = (dx * dx + dy * dy).sqrt();
    if r < 6.5 {
        let shade = 210u8.saturating_sub((r * 8.0) as u8);
        (shade, shade.saturating_sub(5), shade.saturating_sub(10))
    } else {
        (110, 105, 100)
    }
}

fn grass_oracle(x: usize, y: usize) -> (u8, u8, u8) {
    let n = (((x * 29 + y * 47) % 31) as i32 - 15) * 3;
    let g = (180 + n).clamp(130, 230) as u8;
    ((g / 2).saturating_sub(10), g, (g / 3).saturating_sub(15))
}

fn concrete_oracle(x: usize, y: usize) -> (u8, u8, u8) {
    let n = (((x * 37 + y * 73) % 29) as i32 - 14) * 2;
    let v = (185 + n).clamp(150, 220) as u8;
    (v, v, v)
}

fn check_texture(img: &DecodedImage, oracle: fn(usize, usize) -> (u8, u8, u8)) {
    assert_eq!(img.width, 64);
    assert_eq!(img.height, 64);
    assert_eq!(img.rgba.len(), 64 * 64 * 4);
    for y in 0..64 {
        for x in 0..64 {
            let i = (y * 64 + x) * 4;
            let (r, g, b) = oracle(x, y);
            assert_eq!(
                (img.rgba[i], img.rgba[i + 1], img.rgba[i + 2], img.rgba[i + 3]),
                (r, g, b, 255),
                "pixel ({}, {})",
                x,
                y
            );
        }
    }
}

#[test]
fn brick_texture_pixels() {
    check_texture(&generate_brick_texture(), brick_oracle);
    let t = generate_brick_texture();
    assert_eq!(&t.rgba[0..4], &[140, 135, 130, 255]);
}

#[test]
fn diamond_plate_texture_pixels() {
    check_texture(&generate_diamond_plate_texture(), diamond_oracle);
}

#[test]
fn wood_planks_texture_pixels() {
    check_texture(&generate_wood_planks_texture(), wood_oracle);
}

#[test]
fn cobblestone_texture_pixels() {
    check_texture(&generate_cobblestone_texture(), cobble_oracle);
    let t = generate_cobblestone_texture();
    let centre = (8 * 64 + 8) * 4;
    assert_eq!(&t.rgba[centre..centre + 4], &[210, 205, 200, 255]);
}

#[test]
fn grass_texture_pixels() {
    check_texture(&generate_grass_texture(), grass_oracle);
}

#[test]
fn concrete_texture_pixels() {
    check_texture(&generate_concrete_texture(), concrete_oracle);
    let same = generate_texture(Material::Concrete);
    assert_eq!(same.rgba, generate_concrete_texture().rgba);
}

#[test]
fn procedural_keys() {
    assert_eq!(procedural_texture("__studs"), Some(ProceduralTexture::Studs));
    assert_eq!(procedural_texture("__inlets"), Some(ProceduralTexture::Inlets));
    assert_eq!(
        procedural_texture("__wood_planks"),
        Some(ProceduralTexture::Material(Material::WoodPlanks))
    );
    assert_eq!(procedural_texture("__Brick"), None);
    assert_eq!(procedural_texture("brick"), None);
}

#[test]
fn image_lookup_draws_and_caches_materials() {
    let mut c = image_cache();
    match get_cached_image(&mut c, "  __grass ") {
        ImageLookup::Found(img) => assert_eq!(img.rgba, generate_grass_texture().rgba),
        _ => panic!("grass is drawn by the library"),
    }
    assert!(c.get("__grass").is_some());
    assert!(c.get("  __grass ").is_none());
    match get_cached_image(&mut c, "__grass") {
        ImageLookup::Found(img) => assert_eq!(img.width, 64),
        _ => panic!("grass is cached now"),
    }
}

#[test]
fn image_lookup_asks_for_float_textures_and_files() {
    let mut c = image_cache();
    match get_cached_image(&mut c, "__studs") {
        ImageLookup::Draw { key, texture } => {
            assert_eq!(key, "__studs");
            assert_eq!(texture, ProceduralTexture::Studs);
        }
        _ => panic!("studs are drawn by the caller"),
    }
    match get_cached_image(&mut c, "rbxassetid://1008743") {
        ImageLookup::Load { key, bundled, files } => {
            assert_eq!(key, "rbxassetid://1008743");
            assert_eq!(bundled, Some("asset/1008743.png".to_string()));
            assert_eq!(
                files,
                vec![
                    "/Android/media/com.yourname.rbxleditor/scripts/asset/1008743.png".to_string(),
                    "/home/user/Android-rbxl/asset/1008743.png".to_string(),
                    "/home/user/asset/1008743.png".to_string(),
                    "/sdcard/Download/1008743.png".to_string(),
                ]
            );
        }
        _ => panic!("expected a file lookup"),
    }
    match get_cached_image(&mut c, "nothing here") {
        ImageLookup::Load { bundled, files, .. } => {
            assert_eq!(bundled, None);
            assert!(files.is_empty());
        }
        _ => panic!("expected a file lookup"),
    }
    store_cached_image(
        &mut c,
        "rbxassetid://1".to_string(),
        DecodedImage { width: 1, height: 1, rgba: vec![1, 2, 3, 4] },
    );
    match get_cached_image(&mut c, "rbxassetid://1") {
        ImageLookup::Found(img) => assert_eq!(img.rgba, vec![1, 2, 3, 4]),
        _ => panic!("expected the cached image"),
    }
}

fn tiny_png() -> Vec<u8> {
    let img = image::RgbaImage::from_raw(2, 1, vec![255, 0, 0, 255, 0, 0, 255, 128]).unwrap();
    let mut out = std::io::Cursor::new(Vec::new());
    img.write_to(&mut out, image::ImageFormat::Png).unwrap();
    out.into_inner()
}

#[test]
fn decoding_images() {
    let png = tiny_png();
    let img = decode_image_bytes(&png).unwrap();
    assert_eq!((img.width, img.height), (2, 1));
    assert_eq!(img.rgba, vec![255, 0, 0, 255, 0, 0, 255, 128]);
    assert!(decode_image_bytes(b"not an image at all").is_none());
}

#[test]
fn accepted_files_are_cached() {
    let mut c = image_cache();
    assert!(accept_image_bytes(&mut c, "k".to_string(), b"garbage").is_none());
    assert!(c.get("k").is_none());
    let img = accept_image_bytes(&mut c, "k".to_string(), &tiny_png()).unwrap();
    assert_eq!(img.width, 2);
    assert_eq!(c.get("k").unwrap().rgba, vec![255, 0, 0, 255, 0, 0, 255, 128]);
}

#[test]
fn download_candidate_paths() {
    assert_eq!(
        download_candidates("rbxassetid://99", ".mesh"),
        vec![
            "/Android/media/com.yourname.rbxleditor/scripts/asset/99.mesh".to_string(),
            "/home/user/Android-rbxl/asset/99.mesh".to_string(),
            "/home/user/asset/99.mesh".to_string(),
            "/sdcard/Download/99.mesh".to_string(),
        ]
    );
    assert!(download_candidates("xyz", ".png").is_empty());
}

#[test]
fn mesh_lookup() {
    let mut c: AssetCache<String> = AssetCache::new();
    match get_cached_mesh(&c, " rbxassetid://101840172 ") {
        MeshLookup::Load { key, bundled, files } => {
            assert_eq!(key, "rbxassetid://101840172");
            assert_eq!(bundled, Some("asset/101840172.mesh".to_string()));
            assert_eq!(files.len(), 4);
        }
        MeshLookup::Found(_) => panic!("nothing cached"),
    }
    c.insert("rbxassetid://101840172".to_string(), "sword".to_string());
    match get_cached_mesh(&c, "rbxassetid://101840172") {
        MeshLookup::Found(m) => assert_eq!(m, "sword"),
        MeshLookup::Load { .. } => panic!("the mesh is cached"),
    }
}

#[test]
fn bundled_meshes() {
    assert_eq!(
        get_builtin_mesh_bytes("rbxassetid://101840172"),
        Some("asset/101840172.mesh".to_string())
    );
    assert_eq!(
        get_builtin_mesh_bytes("rbxasset://fonts/sword.mesh"),
        Some("asset/101840172.mesh".to_string())
    );
    assert_eq!(
        get_builtin_mesh_bytes("  http://www.roblox.com/asset/?id=1136139 "),
        Some("asset/1136139.mesh".to_string())
    );
    assert_eq!(get_builtin_mesh_bytes("84313555"), Some("asset/84313555.mesh".to_string()));
    assert_eq!(get_builtin_mesh_bytes("rbxassetid://1"), None);
    assert_eq!(get_builtin_mesh_bytes("rbxassetid://1008743"), None);
}

#[test]
fn bundled_images() {
    assert_eq!(
        get_builtin_image_bytes("rbxasset://sky/null_plainsky512_bk.jpg"),
        Some("content/sky/null_plainsky512_bk.jpg".to_string())
    );
    assert_eq!(
        get_builtin_image_bytes("custom_sky512_up.jpg"),
        Some("content/sky/null_plainsky512_up.jpg".to_string())
    );
    assert_eq!(
        get_builtin_image_bytes("rbxasset://textures/spawnlocation.png"),
        Some("content/Textures/SpawnLocation.png".to_string())
    );
    assert_eq!(
        get_builtin_image_bytes("rbxasset://textures/ArrowFarCursor.png"),
        Some("content/Textures/ArrowFarCursor.png".to_string())
    );
    assert_eq!(
        get_builtin_image_bytes("rbxasset://textures/ArrowCursor.png"),
        Some("content/Textures/ArrowCursor.png".to_string())
    );
    assert_eq!(
        get_builtin_image_bytes("rbxassetid://6372755229"),
        Some("asset/6372755229.png".to_string())
    );
    assert_eq!(get_builtin_image_bytes("rbxassetid://101840172"), None);
    assert_eq!(get_builtin_image_bytes(""), None);
}

#[test]
fn bundled_assets_prefer_meshes() {
    assert_eq!(
        get_builtin_asset("rbxassetid://101840172"),
        Some("asset/101840172.mesh".to_string())
    );
    assert_eq!(get_builtin_asset("rbxassetid://1008743"), Some("asset/1008743.png".to_string()));
    assert_eq!(get_builtin_asset("rbxassetid://3"), None);
}

fn le32(v: u32) -> [u8; 4] {
    v.to_le_bytes()
}

fn binary_mesh(version: &str, header_size: u16, sv: u8, sf: u8, nv: u32, nf: u32) -> Vec<u8> {
    let mut b = version.as_bytes().to_vec();
    b.push(b'\n');
    b.extend_from_slice(&header_size.to_le_bytes());
    b.push(sv);
    b.push(sf);
    if header_size > 12 {
        b.extend_from_slice(&[0, 0, 0, 0]);
    }
    b.extend_from_slice(&le32(nv));
    b.extend_from_slice(&le32(nf));
    b
}

#[test]
fn mesh_formats() {
    assert_eq!(mesh_format(b"version 1.00\n1\n"), Some(MeshFormat::Ascii));
    assert_eq!(mesh_format(b"version 1.01\n"), Some(MeshFormat::Ascii));
    assert_eq!(mesh_format(b"version 2.00\n"), Some(MeshFormat::Binary));
    assert_eq!(mesh_format(b"version 3.00\n"), Some(MeshFormat::Binary));
    assert_eq!(mesh_format(b"version 4.00\n"), None);
    assert_eq!(mesh_format(b"version 1.0"), None);
    assert_eq!(mesh_format(b"Version 2.00"), None);
}

#[test]
fn binary_mesh_v2() {
    let mut b = binary_mesh("version 2.00", 12, 40, 12, 2, 1);
    let floats = [1.0f32, 2.0, -3.5, 0.0, 1.0, 0.0, 0.25, 0.75];
    for k in 0..2 {
        for f in floats {
            b.extend_from_slice(&(f + k as f32).to_le_bytes());
        }
        b.extend_from_slice(&[9u8; 8]);
    }
    b.extend_from_slice(&le32(0));
    b.extend_from_slice(&le32(1));
    b.extend_from_slice(&le32(0));
    assert!(!mesh_counts_cut_off(&b));
    let m = parse_binary_mesh_v2_v3(&b).unwrap();
    assert_eq!(m.version, "version 2.00");
    assert_eq!(m.vertex_count, 2);
    assert_eq!(m.face_count, 1);
    assert_eq!(m.vertices[0], (1.0f32.to_bits(), 2.0f32.to_bits(), (-3.5f32).to_bits()));
    assert_eq!(m.vertices[1], (2.0f32.to_bits(), 3.0f32.to_bits(), (-2.5f32).to_bits()));
    assert_eq!(m.normals[0], (0.0f32.to_bits(), 1.0f32.to_bits(), 0.0f32.to_bits()));
    assert_eq!(m.uvs[1], (1.25f32.to_bits(), 1.75f32.to_bits()));
    assert_eq!(m.faces, vec![(0, 1, 0)]);
}

#[test]
fn binary_mesh_v3_header_and_short_records() {
    // 16-byte header; 20-byte vertex records, so the third record's 32 bytes
    // run past the end of the file.
    let mut b = binary_mesh(" version 3.00 \r", 16, 20, 12, 3, 0);
    b.extend_from_slice(&[0u8; 60]);
    let m = parse_binary_mesh_v2_v3(&b).unwrap();
    assert_eq!(m.version, "version 3.00");
    assert_eq!(m.vertex_count, 2);
    assert_eq!(m.face_count, 0);
}

#[test]
fn binary_mesh_rejections() {
    assert!(parse_binary_mesh_v2_v3(b"version 2.00").is_none());
    assert!(parse_binary_mesh_v2_v3(b"version 2.00\n\x0c\x00\x28").is_none());
    let b = binary_mesh("version 2.00", 12, 40, 12, 5, 0);
    assert!(parse_binary_mesh_v2_v3(&b).is_none());
    // Faces that do not fit are dropped, vertices kept.
    let mut b = binary_mesh("version 2.00", 12, 32, 12, 1, 2);
    b.extend_from_slice(&[0u8; 32]);
    b.extend_from_slice(&[0u8; 12]);
    let m = parse_binary_mesh_v2_v3(&b).unwrap();
    assert_eq!((m.vertex_count, m.face_count), (1, 0));
    // Face records shorter than twelve bytes are not read.
    let mut b = binary_mesh("version 2.00", 12, 32, 8, 0, 1);
    b.extend_from_slice(&[0u8; 8]);
    assert_eq!(parse_binary_mesh_v2_v3(&b).unwrap().face_count, 0);
}

#[test]
fn mesh_header_cut_off() {
    let mut b = b"version 3.00\n".to_vec();
    b.extend_from_slice(&[16, 0, 40, 12, 0, 0, 0, 0, 1, 0, 0, 0, 1, 0]);
    assert!(mesh_counts_cut_off(&b));
    assert!(!mesh_counts_cut_off(b"no newline"));
}

#[test]
fn asset_id_follows_each_prefix() {
    assert_eq!(id("  rbxassetid://1818.png \n"), Some("1818".to_string()));
    assert_eq!(id("x rbxassetid://7 tail"), Some("7".to_string()));
    assert_eq!(id("http://www.roblox.com/asset/?id=42&x=9"), Some("42".to_string()));
    assert_eq!(id("https://x/v1/assetId/777/foo9"), Some("777".to_string()));
}

#[test]
fn asset_id_from_digits_alone() {
    assert_eq!(id("v1.2"), None);
    assert_eq!(id(" 12-34 "), Some("1234".to_string()));
    assert_eq!(id("abc123"), None);
}

#[test]
fn asset_id_of_an_id() {
    let long = id("rbxassetid://99170547").unwrap();
    assert_eq!(id(&long), Some(long.clone()));
    let short = id("id=12").unwrap();
    assert_eq!(short, "12");
    assert_eq!(id(&short), None);
}

#[test]
fn bundled_files_follow_the_id() {
    let a = get_builtin_mesh_bytes("rbxassetid://10470609");
    assert_eq!(a, Some("asset/10470609.mesh".to_string()));
    assert_eq!(get_builtin_mesh_bytes("http://www.roblox.com/asset/?id=10470609"), a);
    assert_eq!(get_builtin_mesh_bytes("  10470609 "), a);
    let b = get_builtin_image_bytes("rbxassetid://1008743");
    assert_eq!(b, Some("asset/1008743.png".to_string()));
    assert_eq!(get_builtin_image_bytes("http://www.roblox.com/asset/?id=1008743"), b);
    assert_eq!(get_builtin_image_bytes("rbxassetid://1"), None);
}

#[test]
fn cached_image_wins_over_padding() {
    let mut cache = image_cache();
    let img = DecodedImage { width: 1, height: 1, rgba: vec![1, 2, 3, 4] };
    store_cached_image(&mut cache, "rbxasset://textures/brick.png".to_string(), img);
    match get_cached_image(&mut cache, "  rbxasset://textures/brick.png\n") {
        ImageLookup::Found(found) => {
            assert_eq!(found.width, 1);
            assert_eq!(found.rgba, vec![1, 2, 3, 4]);
        }
        _ => panic!("cached image not found"),
    }
}

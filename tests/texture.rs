use rays::image::{Image, TextureError};
use rays::perlin::{perlin_generate_perm, permute_with, PerlinPerm, POINT_COUNT};
use rays::tag::{ColourTag, VectorTag};
use std::io::Cursor;

fn png(width: u32, height: u32, data: Vec<u8>) -> Vec<u8> {
    let img = image::RgbImage::from_raw(width, height, data).unwrap();
    let mut out = Cursor::new(Vec::new());
    image::DynamicImage::ImageRgb8(img)
        .write_to(&mut out, image::ImageOutputFormat::Png)
        .unwrap();
    out.into_inner()
}

#[test]
fn image_texture_decodes_and_clamps() {
    let data: Vec<u8> = (0..18).collect();
    let img = Image::new(&png(3, 2, data), image::ImageFormat::Png).unwrap();
    assert_eq!(img.width(), 3);
    assert_eq!(img.height(), 2);
    assert_eq!(img.texel(0, 0), [0, 1, 2]);
    assert_eq!(img.texel(2, 0), [6, 7, 8]);
    assert_eq!(img.texel(1, 1), [12, 13, 14]);
    assert_eq!(img.texel(7, 0), [6, 7, 8]);
    assert_eq!(img.texel(0, 9), [9, 10, 11]);
    assert_eq!(img.texel(u32::MAX, u32::MAX), [15, 16, 17]);
}

#[test]
fn image_texture_refuses_garbage() {
    match Image::new(b"not an image at all", image::ImageFormat::Png) {
        Err(TextureError::Decode(_)) => {}
        other => panic!("unexpected: {:?}", other.map(|i| i.width())),
    }
    match Image::new(&png(2, 2, vec![7; 12]), image::ImageFormat::Jpeg) {
        Err(TextureError::Decode(_)) => {}
        other => panic!("unexpected: {:?}", other.map(|i| i.width())),
    }
}

#[test]
fn image_texture_from_samples() {
    let img = Image::from_rgb8(2, 1, vec![1, 2, 3, 4, 5, 6]).unwrap();
    assert_eq!(img.texel(1, 0), [4, 5, 6]);
    assert_eq!(img.texel(0, 3), [1, 2, 3]);
    assert!(matches!(Image::from_rgb8(2, 2, vec![0; 11]), Err(TextureError::BadSize)));
    assert!(matches!(Image::from_rgb8(0, 5, Vec::new()), Ok(_)));
}

#[test]
fn shuffle_follows_the_draws() {
    let mut p = vec![0, 1, 2, 3];
    permute_with(&mut p, &vec![0, 0, 1, 2]);
    assert_eq!(p, vec![3, 0, 1, 2]);
    let mut q = vec![10, 20, 30];
    permute_with(&mut q, &vec![0, 1, 2]);
    assert_eq!(q, vec![10, 20, 30]);
    let mut r = vec![10, 20, 30];
    permute_with(&mut r, &vec![0, 0, 0]);
    assert_eq!(r, vec![20, 30, 10]);
}

fn is_permutation(p: &[usize]) -> bool {
    let mut q = p.to_vec();
    q.sort();
    q == (0..POINT_COUNT).collect::<Vec<_>>()
}

#[test]
fn perlin_tables_are_permutations() {
    let tables = PerlinPerm::new();
    assert!(is_permutation(&tables.perm_x));
    assert!(is_permutation(&tables.perm_y));
    assert!(is_permutation(&tables.perm_z));
    let shuffled = (0..4).map(|_| perlin_generate_perm()).collect::<Vec<_>>();
    assert!(shuffled.iter().all(|p| is_permutation(p)));
    let identity = (0..POINT_COUNT).collect::<Vec<_>>();
    assert!(shuffled.iter().any(|p| *p != identity));
}

#[test]
fn perlin_hash_wraps_coordinates() {
    let identity = (0..POINT_COUNT).collect::<Vec<_>>();
    let tables = PerlinPerm {
        perm_x: identity.clone(),
        perm_y: identity.clone(),
        perm_z: identity,
    };
    assert_eq!(tables.hash(1, 2, 3), 1 ^ 2 ^ 3);
    assert_eq!(tables.hash(-1, 0, 0), 255);
    assert_eq!(tables.hash(256, 257, -256), 1);
    let random = PerlinPerm::new();
    for (i, j, k) in [(0, 0, 0), (-7, 300, 12), (i32::MIN, i32::MAX, -1)] {
        let h = random.hash(i, j, k);
        assert!(h < POINT_COUNT);
        assert_eq!(h, random.hash(i.wrapping_add(256), j.wrapping_sub(512), k));
    }
}

#[test]
fn tags_are_plain_markers() {
    assert_eq!(ColourTag::default(), ColourTag);
    assert_eq!(VectorTag::default(), VectorTag);
}

use libvoice::graphs::{segment_present, slugify};

#[test]
fn graph_titles_become_file_names() {
    assert_eq!(slugify("Pitch Contour"), "pitch_contour.png");
    assert_eq!(slugify("HNR & Loudness (dB)"), "hnr__loudness_db.png");
    assert_eq!(slugify("!!!"), "graph.png");
    assert_eq!(slugify(""), "graph.png");
}

#[test]
fn series_break_at_gaps() {
    let items = [Some(1), Some(2), None, None, Some(3), None, Some(4), Some(5)];
    assert_eq!(segment_present(&items), vec![vec![1, 2], vec![3], vec![4, 5]]);
    let none: [Option<i32>; 2] = [None, None];
    assert!(segment_present(&none).is_empty());
    assert!(segment_present::<i32>(&[]).is_empty());
}

#[test]
fn joined_runs_are_the_present_values() {
    let items = [None, Some(7), Some(8), None, Some(9)];
    let joined: Vec<i32> = segment_present(&items).into_iter().flatten().collect();
    let present: Vec<i32> = items.iter().flatten().copied().collect();
    assert_eq!(joined, present);
}

use image::ImageEncoder;
use libvoice::graphs::encode_graph_png;

fn direct_png(pixels: &[u8], width: u32, height: u32) -> Result<Vec<u8>, String> {
    let mut png = Vec::new();
    image::codecs::png::PngEncoder::new(&mut png)
        .write_image(pixels, width, height, image::ExtendedColorType::Rgb8)
        .map_err(|error| error.to_string())?;
    Ok(png)
}

#[test]
fn graph_pixels_become_a_png_file() {
    let pixels = [255u8, 0, 0, 0, 0, 255];
    let png = encode_graph_png(&pixels, 2, 1).unwrap();
    assert_eq!(&png[..8], b"\x89PNG\r\n\x1a\n");
    assert_eq!(Ok(png.clone()), direct_png(&pixels, 2, 1));
    let decoded = image::load_from_memory(&png).unwrap().to_rgb8();
    assert_eq!((decoded.width(), decoded.height()), (2, 1));
    assert_eq!(decoded.into_raw(), pixels.to_vec());
}

#[test]
fn encoder_failures_are_reported_with_their_message() {
    let expected = match direct_png(&[], 0, 0) {
        Ok(png) => Ok(png),
        Err(message) => Err(format!("failed to encode graph png: {message}")),
    };
    assert_eq!(encode_graph_png(&[], 0, 0), expected);
}

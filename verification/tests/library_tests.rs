use image::{GrayImage, Rgba, RgbaImage};
use vidgen::commands::{
    encode_frames_command, encode_fx_frames_command, extract_frames_command, shell_command,
};
use vidgen::decimal::decimal_string;
use vidgen::edges::{edge_magnitude, edges_from_gradients, gray_plane, RgbaFrame};
use vidgen::paths::{cleanup_paths, frame_path, frame_save_paths, fx_frame_name, output_short_name};
use vidgen::schedule::{cleanup_indices, frame_file_indices};

const SOBEL_HORIZONTAL: [f32; 9] = [-1.0, 0.0, 1.0, -2.0, 0.0, 2.0, -1.0, 0.0, 1.0];
const SOBEL_VERTICAL: [f32; 9] = [-1.0, -2.0, -1.0, 0.0, 0.0, 0.0, 1.0, 2.0, 1.0];

#[test]
fn frame_file_indices_first_and_last_frame() {
    assert_eq!(frame_file_indices(1, 30), (0, 59));
    assert_eq!(frame_file_indices(30, 30), (29, 30));
    assert_eq!(frame_file_indices(1, 1), (0, 1));
}

#[test]
fn frame_file_indices_largest_frame_count() {
    let frames = u32::MAX / 2;
    assert_eq!(frame_file_indices(frames, frames), (frames - 1, frames));
    assert_eq!(frame_file_indices(1, frames), (0, 2 * frames - 1));
}

#[test]
fn frame_files_cover_every_index_once() {
    for frames in 0u32..12 {
        let mut seen = vec![0u32; (2 * frames) as usize];
        for i in 1..=frames {
            let (a, b) = frame_file_indices(i, frames);
            assert_eq!(a + b, 2 * frames - 1);
            seen[a as usize] += 1;
            seen[b as usize] += 1;
        }
        assert!(seen.iter().all(|&c| c == 1));
    }
}

#[test]
fn cleanup_indices_are_the_mirrored_half() {
    assert_eq!(cleanup_indices(3), vec![5, 4, 3]);
    assert_eq!(cleanup_indices(1), vec![1]);
    assert_eq!(cleanup_indices(0), Vec::<u32>::new());
    for frames in 0u32..12 {
        let removed = cleanup_indices(frames);
        for i in 1..=frames {
            let (forward, mirror) = frame_file_indices(i, frames);
            assert!(removed.contains(&mirror));
            assert!(!removed.contains(&forward));
        }
    }
}

#[test]
fn decimal_string_matches_display() {
    for n in [0u32, 1, 9, 10, 11, 99, 100, 101, 59, 1000, 65535, 4294967295] {
        assert_eq!(decimal_string(n), n.to_string());
    }
    for n in 0u32..2000 {
        assert_eq!(decimal_string(n), format!("{}", n));
    }
}

#[test]
fn frame_path_matches_format() {
    assert_eq!(
        frame_path("src/png_out/test2.1", "test2.1", 59),
        "src/png_out/test2.1/test2.1_59.png"
    );
    assert_eq!(frame_path("", "", 0), "/_0.png");
    assert_eq!(frame_path("d", "n", 4294967295), "d/n_4294967295.png");
}

#[test]
fn frame_paths_are_distinct() {
    let mut paths: Vec<String> = (0u32..500).map(|i| frame_path("dir", "x", i)).collect();
    paths.sort();
    paths.dedup();
    assert_eq!(paths.len(), 500);
}

#[test]
fn frame_save_paths_of_a_frame() {
    let (a, b) = frame_save_paths("out", "clip", 1, 30);
    assert_eq!(a, "out/clip_0.png");
    assert_eq!(b, "out/clip_59.png");
    let (a, b) = frame_save_paths("out", "clip", 30, 30);
    assert_eq!(a, "out/clip_29.png");
    assert_eq!(b, "out/clip_30.png");
}

#[test]
fn cleanup_paths_in_removal_order() {
    assert_eq!(
        cleanup_paths("out", "clip", 3),
        vec!["out/clip_5.png", "out/clip_4.png", "out/clip_3.png"]
    );
    assert!(cleanup_paths("out", "clip", 0).is_empty());
}

#[test]
fn fx_frame_name_replaces_every_underscore() {
    assert_eq!(fx_frame_name("stairs.2_001.png"), "stairs.2_fx_001.png");
    assert_eq!(fx_frame_name("a_b_c"), "a_fx_b_fx_c");
    assert_eq!(fx_frame_name("__"), "_fx__fx_");
    assert_eq!(fx_frame_name(""), "");
    assert_eq!(fx_frame_name("plain.png"), "plain.png");
    assert_eq!(fx_frame_name("é_ü"), "é_fx_ü");
    for name in ["x_", "_x", "a__b", "_fx_", "über_straße_01.png"] {
        assert_eq!(fx_frame_name(name), name.replace("_", "_fx_"));
    }
}

#[test]
fn fx_renaming_matches_encoding_pattern() {
    assert_eq!(fx_frame_name("stairs.2_%03d.png"), "stairs.2_fx_%03d.png");
    // a stem with an underscore of its own breaks the match
    assert_ne!(fx_frame_name("my_clip_%03d.png"), "my_clip_fx_%03d.png");
}

#[test]
fn output_short_name_third_piece() {
    assert_eq!(output_short_name("src/vid_out/stairs.2"), Some("stairs.2".to_string()));
    assert_eq!(output_short_name("a/b/c/d"), Some("c".to_string()));
    assert_eq!(output_short_name("a//"), Some("".to_string()));
    assert_eq!(output_short_name("//x"), Some("x".to_string()));
    assert_eq!(output_short_name("a/b"), None);
    assert_eq!(output_short_name(""), None);
    assert_eq!(output_short_name("no_slash"), None);
    for path in ["a/b/c", "/a/b", "x/y/z/w/v", "a/b/", "é/ü/ß", "///", "a/b"] {
        let parts: Vec<&str> = path.split("/").collect();
        let expected = if parts.len() > 2 { Some(parts[2].to_string()) } else { None };
        assert_eq!(output_short_name(path), expected);
    }
}

#[test]
fn encode_frames_command_text() {
    let (dir, name, vid) = ("src/png_out/test2.1", "test2.1", "src/vid_out/test2.1");
    assert_eq!(
        encode_frames_command(dir, name, vid),
        format!(
            "ffmpeg -y -framerate 30 -i {}/{}_%d.png -c:v libx264 -pix_fmt yuv420p {}.mp4",
            dir, name, vid
        )
    );
}

#[test]
fn extract_frames_command_text() {
    let (vid, dir, short) = ("src/vid_in/stairs.mp4", "src/png_out/stairs.2", "stairs.2");
    assert_eq!(
        extract_frames_command(vid, dir, short),
        format!("ffmpeg -i {} -vf fps=30 {}/{}_%03d.png", vid, dir, short)
    );
}

#[test]
fn encode_fx_frames_command_text() {
    let (dir, short, out) = ("src/png_out/stairs.2", "stairs.2", "src/vid_out/stairs.2");
    assert_eq!(
        encode_fx_frames_command(dir, short, out),
        format!(
            "ffmpeg -y -framerate 30 -i {}/{}_fx_%03d.png -c:v libx264 -pix_fmt yuv420p {}.mp4",
            dir, short, out
        )
    );
}

#[test]
fn shell_command_per_platform() {
    let c = shell_command(true, "ffmpeg -i a b");
    assert_eq!(c.program, "cmd");
    assert_eq!(c.args, vec!["/C".to_string(), "ffmpeg -i a b".to_string()]);
    let c = shell_command(false, "ffmpeg -i a b");
    assert_eq!(c.program, "sh");
    assert_eq!(c.args, vec!["-c".to_string(), "ffmpeg -i a b".to_string()]);
}

fn float_magnitude(x: u8, y: u8) -> u8 {
    let magx = x as f32;
    let magy = y as f32;
    (magx.powi(2) + magy.powi(2)).sqrt() as u8
}

#[test]
fn edge_magnitude_matches_float_computation() {
    for x in 0..=255u8 {
        for y in 0..=255u8 {
            assert_eq!(edge_magnitude(x, y), float_magnitude(x, y), "at {} {}", x, y);
        }
    }
}

#[test]
fn edge_magnitude_values() {
    assert_eq!(edge_magnitude(0, 0), 0);
    assert_eq!(edge_magnitude(3, 4), 5);
    assert_eq!(edge_magnitude(1, 1), 1);
    assert_eq!(edge_magnitude(100, 100), 141);
    assert_eq!(edge_magnitude(180, 180), 254);
    assert_eq!(edge_magnitude(181, 181), 255);
    assert_eq!(edge_magnitude(255, 255), 255);
    assert_eq!(edge_magnitude(255, 0), 255);
}

#[test]
fn edge_magnitude_laws_on_values() {
    for x in 0..=255u8 {
        assert_eq!(edge_magnitude(x, 0), x);
        assert_eq!(edge_magnitude(0, x), x);
        for y in (0..=255u8).step_by(17) {
            assert_eq!(edge_magnitude(x, y), edge_magnitude(y, x));
            if x < 255 {
                assert!(edge_magnitude(x, y) <= edge_magnitude(x + 1, y));
            }
        }
    }
}

#[test]
fn gray_plane_is_leading_bytes() {
    let frame = RgbaFrame { width: 2, height: 1, data: vec![10, 20, 30, 40, 50, 60, 70, 80] };
    assert_eq!(gray_plane(&frame), vec![10, 20]);
    let empty = RgbaFrame { width: 0, height: 5, data: vec![] };
    assert!(gray_plane(&empty).is_empty());
}

#[test]
fn edges_from_gradients_pixels() {
    let e = edges_from_gradients(2, 1, &vec![3, 0], &vec![4, 200]);
    assert_eq!(e.width, 2);
    assert_eq!(e.height, 1);
    assert_eq!(e.data, vec![5, 5, 5, 255, 200, 200, 200, 255]);
    let e = edges_from_gradients(0, 0, &vec![], &vec![]);
    assert!(e.data.is_empty());
}

/// The whole edge pipeline against the float computation on image buffers.
#[test]
fn edge_pipeline_matches_image_buffers() {
    let (w, h) = (7u32, 5u32);
    let mut src = RgbaImage::new(w, h);
    for x in 0..w {
        for y in 0..h {
            let v = ((x * 37 + y * 91) % 256) as u8;
            src.put_pixel(x, y, Rgba([v, v.wrapping_mul(3), v ^ 0x5a, 255]));
        }
    }
    // as the program computes it, on image buffers and floats
    let gray = GrayImage::from_raw(w, h, src.clone().into_raw()).unwrap();
    let gradx = image::imageops::filter3x3(&gray, &SOBEL_HORIZONTAL);
    let grady = image::imageops::filter3x3(&gray, &SOBEL_VERTICAL);
    let mut expected = RgbaImage::new(w, h);
    for x in 0..w {
        for y in 0..h {
            let m = float_magnitude(gradx.get_pixel(x, y)[0], grady.get_pixel(x, y)[0]);
            expected.put_pixel(x, y, Rgba([m, m, m, 255]));
        }
    }
    // through the library
    let frame = RgbaFrame { width: w, height: h, data: src.into_raw() };
    let plane = gray_plane(&frame);
    let g = GrayImage::from_raw(w, h, plane).unwrap();
    let gx = image::imageops::filter3x3(&g, &SOBEL_HORIZONTAL).into_raw();
    let gy = image::imageops::filter3x3(&g, &SOBEL_VERTICAL).into_raw();
    let edges = edges_from_gradients(w, h, &gx, &gy);
    assert_eq!(edges.data, expected.into_raw());
}

use sam_prep::prepare;
use sam_prep::Device;
use sam_prep::ImageError;
use sam_prep::MalformedPointError;
use sam_prep::PrepareError;

fn png_bytes(height: u32, width: u32, pixels: Vec<u8>) -> Vec<u8> {
    let img = image::RgbImage::from_raw(width, height, pixels).unwrap();
    let mut bytes: Vec<u8> = Vec::new();
    img.write_to(&mut std::io::Cursor::new(&mut bytes), image::ImageFormat::Png).unwrap();
    bytes
}

#[test]
fn full_request_is_assembled() {
    let bytes = png_bytes(2, 4, vec![5u8; 24]);
    let pos = vec!["0.4,0.2".to_string()];
    let neg = vec!["0.9,0.9".to_string()];
    let req = prepare(&bytes, Some(2), &pos, &neg, true, true).unwrap();
    assert_eq!(req.device, Device::Cpu);
    assert!(!req.warn_cpu_fallback);
    assert_eq!((req.initial_height, req.initial_width), (2, 4));
    assert_eq!((req.tensor.height, req.tensor.width), (1, 2));
    assert_eq!(req.tensor.data.len(), 6);
    assert_eq!(req.points.len(), 2);
    assert!(req.points[0].is_positive);
    assert!(!req.points[1].is_positive);
    assert_eq!(req.points[0].x, "0.4");
    assert_eq!(req.points[1].y, "0.9");
    assert!(req.multimask);
}

#[test]
fn image_errors_take_precedence_over_prompt_errors() {
    let bytes = b"not an image".to_vec();
    let bad_points = vec!["oops".to_string()];
    match prepare(&bytes, None, &bad_points, &vec![], true, false).unwrap_err() {
        PrepareError::Image(e) => assert_eq!(e, ImageError::Decode),
        PrepareError::Prompt(_) => panic!("prompt error reported before image error"),
    }
}

#[test]
fn prompt_errors_abort_after_a_good_image() {
    let bytes = png_bytes(2, 2, vec![0u8; 12]);
    let bad_points = vec!["oops".to_string()];
    match prepare(&bytes, None, &bad_points, &vec![], true, false).unwrap_err() {
        PrepareError::Prompt(MalformedPointError::NotAPair { input }) => {
            assert_eq!(input, "oops")
        },
        _ => panic!("expected a prompt error"),
    }
}

#[test]
fn empty_prompts_make_a_valid_request() {
    let bytes = png_bytes(2, 2, vec![0u8; 12]);
    let req = prepare(&bytes, None, &vec![], &vec![], true, false).unwrap();
    assert!(req.points.is_empty());
    assert_eq!((req.tensor.height, req.tensor.width), (2, 2));
}

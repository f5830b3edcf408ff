use skribbl_backend::color::{convert_brush_size, convert_color};
use skribbl_backend::drawing::{convert_draw_path, convert_stroke, OPAQUE_ALPHA_BITS};
use skribbl_backend::models::{BrushSize, Color, FrontendDrawPath, FrontendDrawStroke, LeaveRoomRequest};
use skribbl_backend::requests::{is_valid_room_code, parse_leave_request, parse_player_id, parse_room_code, LeaveError};
use skribbl_backend::text::{guess_matches, same_text};

fn stroke(color: &str, brush: u32, alpha: f32) -> FrontendDrawStroke {
    FrontendDrawStroke {
        x_bits: 1.5f32.to_bits(),
        y_bits: 2.5f32.to_bits(),
        color: color.to_string(),
        brush_size: brush,
        alpha_bits: alpha.to_bits(),
        is_eraser: false,
        brush_px: brush,
    }
}

#[test]
fn colors_map_to_palette_ignoring_case() {
    assert_eq!(convert_color("#FF0000"), Color::Red);
    assert_eq!(convert_color("#00ff00"), Color::Green);
    assert_eq!(convert_color("Blue"), Color::Blue);
    assert_eq!(convert_color("#FFFF00"), Color::Yellow);
    assert_eq!(convert_color("#800080"), Color::Purple);
    assert_eq!(convert_color("#ffa500"), Color::Orange);
    assert_eq!(convert_color("#A52A2A"), Color::Brown);
    assert_eq!(convert_color("#ffc0cb"), Color::Pink);
    assert_eq!(convert_color("GRAY"), Color::Gray);
    assert_eq!(convert_color("#123456"), Color::Black);
    assert_eq!(convert_color(""), Color::Black);
}

#[test]
fn brush_sizes() {
    assert_eq!(convert_brush_size(2), BrushSize::Small);
    assert_eq!(convert_brush_size(8), BrushSize::Large);
    assert_eq!(convert_brush_size(4), BrushSize::Medium);
    assert_eq!(convert_brush_size(0), BrushSize::Medium);
}

#[test]
fn guesses_match_trimmed_and_case_insensitive() {
    assert!(guess_matches("  CaT\n", "cat"));
    assert!(guess_matches("cat", "CAT"));
    assert!(!guess_matches("cats", "cat"));
    assert!(!guess_matches("c at", "cat"));
}

#[test]
fn same_text_compares_characters() {
    assert!(same_text("héllo", "héllo"));
    assert!(!same_text("hello", "hellO"));
    assert!(!same_text("hell", "hello"));
}

#[test]
fn room_codes_are_normalized() {
    assert_eq!(parse_room_code(" abc123 "), Some("ABC123".to_string()));
    assert_eq!(parse_room_code("ab-123"), None);
    assert_eq!(parse_room_code("abc12"), None);
    assert_eq!(parse_room_code("abc1234"), None);
}

#[test]
fn leave_requests_are_checked_in_order() {
    let ok = LeaveRoomRequest {
        room_code: "abc123".to_string(),
        player_id: " 550e8400-e29b-41d4-a716-446655440000 ".to_string(),
    };
    assert_eq!(
        parse_leave_request(&ok),
        Ok(("ABC123".to_string(), 0x550e8400_e29b_41d4_a716_446655440000u128))
    );
    let bad_code = LeaveRoomRequest { room_code: "abc".to_string(), player_id: "nope".to_string() };
    assert_eq!(parse_leave_request(&bad_code), Err(LeaveError::InvalidRoomCode));
    let bad_id = LeaveRoomRequest { room_code: "ABC123".to_string(), player_id: "nope".to_string() };
    assert_eq!(parse_leave_request(&bad_id), Err(LeaveError::InvalidPlayerId));
    assert_eq!(LeaveError::InvalidPlayerId.message(), "Invalid player ID format");
}

#[test]
fn strokes_keep_hex_and_default_alpha() {
    let s = convert_stroke(&stroke("#FF0000", 8, 0.0), 42);
    assert_eq!(s.alpha_bits, OPAQUE_ALPHA_BITS);
    assert_eq!(f32::from_bits(s.alpha_bits), 1.0);
    assert_eq!(s.color_hex, "#FF0000");
    assert_eq!(s.brush_size, BrushSize::Large);
    assert_eq!(s.brush_px, 8);
    assert_eq!(s.timestamp, 42);
    assert_eq!(f32::from_bits(s.x_bits), 1.5);
    let half = convert_stroke(&stroke("#000000", 2, 0.5), 0);
    assert_eq!(f32::from_bits(half.alpha_bits), 0.5);
    let neg_zero = convert_stroke(&stroke("#000000", 2, -0.0), 0);
    assert_eq!(neg_zero.alpha_bits, OPAQUE_ALPHA_BITS);
}

#[test]
fn draw_paths_keep_parseable_ids() {
    let path = FrontendDrawPath {
        id: "550e8400-e29b-41d4-a716-446655440000".to_string(),
        strokes: vec![stroke("#0000FF", 2, 1.0), stroke("#ff0000", 8, 1.0)],
    };
    let p = convert_draw_path(&path, 7, 99, 1_000, 1).unwrap();
    assert_eq!(p.id, 0x550e8400_e29b_41d4_a716_446655440000u128);
    assert_eq!(p.player_id, 7);
    assert_eq!(p.color, Color::Blue);
    assert_eq!(p.color_hex, "#0000FF");
    assert_eq!(p.brush_size, BrushSize::Small);
    assert_eq!(p.strokes.len(), 2);
    let fresh = FrontendDrawPath { id: "path-1".to_string(), strokes: vec![stroke("red", 4, 1.0)] };
    assert_eq!(convert_draw_path(&fresh, 7, 99, 1_000, 1).unwrap().id, 99);
    let empty = FrontendDrawPath { id: "x".to_string(), strokes: vec![] };
    assert!(convert_draw_path(&empty, 7, 99, 1_000, 1).is_none());
}

#[test]
fn guesses_match_a_word_with_surrounding_spaces() {
    assert!(guess_matches("cat", " Cat "));
    assert!(guess_matches(" CAT", "cat\t"));
}

#[test]
fn room_code_shape_and_player_ids() {
    assert!(is_valid_room_code("ABC123"));
    assert!(!is_valid_room_code("ABC 12"));
    assert!(!is_valid_room_code("ABC1234"));
    assert_eq!(
        parse_player_id("550e8400-e29b-41d4-a716-446655440000"),
        Some(0x550e8400_e29b_41d4_a716_446655440000u128)
    );
    assert_eq!(parse_player_id("not-a-uuid"), None);
}

use ryguessr::colors::{fallback_color, DistinctColors, PlayerColor, MAX_DISTINCT_TRIES};
use ryguessr::srgb::{HexColorError, Srgb8};

fn rgb(r: u8, g: u8, b: u8) -> Srgb8 {
    Srgb8 { r, g, b }
}

#[test]
fn parses_hex_with_and_without_hash() {
    assert_eq!(Srgb8::try_from("#ff8000"), Ok(rgb(255, 128, 0)));
    assert_eq!(Srgb8::try_from("FF8000"), Ok(rgb(255, 128, 0)));
    assert_eq!(Srgb8::try_from("#fF80a0"), Ok(rgb(255, 128, 160)));
    assert_eq!(Srgb8::try_from("#000000"), Ok(rgb(0, 0, 0)));
}

#[test]
fn rejects_signed_groups() {
    assert_eq!(Srgb8::try_from("#+f+f+f"), Err(HexColorError::InvalidDigit));
    assert_eq!(Srgb8::try_from("+a00+0"), Err(HexColorError::InvalidDigit));
    assert_eq!(Srgb8::try_from("a+0000"), Err(HexColorError::InvalidDigit));
}

#[test]
fn rejects_wrong_forms() {
    assert_eq!(Srgb8::try_from(""), Err(HexColorError::InvalidForm));
    assert_eq!(Srgb8::try_from("#12345"), Err(HexColorError::InvalidForm));
    assert_eq!(Srgb8::try_from("#1234567"), Err(HexColorError::InvalidForm));
    assert_eq!(Srgb8::try_from("##123456"), Err(HexColorError::InvalidForm));
    assert_eq!(Srgb8::try_from("#éé1234"), Err(HexColorError::InvalidForm));
}

#[test]
fn rejects_bad_digits() {
    assert_eq!(Srgb8::try_from("#12345g"), Err(HexColorError::InvalidDigit));
    assert_eq!(Srgb8::try_from("#-12345"), Err(HexColorError::InvalidDigit));
    assert_eq!(Srgb8::try_from("# 12345"), Err(HexColorError::InvalidDigit));
}

#[test]
fn formats_lower_case_hex() {
    assert_eq!(rgb(255, 128, 0).to_string(), "#ff8000");
    assert_eq!(rgb(0, 10, 171).to_string(), "#000aab");
}

#[test]
fn format_then_parse_round_trips() {
    for c in [rgb(0, 0, 0), rgb(255, 255, 255), rgb(18, 52, 86), rgb(171, 205, 239)] {
        assert_eq!(Srgb8::try_from(c.to_string().as_str()), Ok(c));
    }
}

#[test]
fn player_color_constructors() {
    let c = rgb(1, 2, 3);
    assert_eq!(PlayerColor::custom(c), PlayerColor { srgb: c, custom: true });
    assert_eq!(PlayerColor::distinct(c), PlayerColor { srgb: c, custom: false });
    assert_eq!(fallback_color(), rgb(0x80, 0x80, 0x80));
}

#[test]
fn draw_takes_first_accepted_position() {
    let mut colors = DistinctColors::new([1, 2, 3]);
    let picked = rgb(10, 20, 30);
    let r = colors.next(|i: usize| if i == 2 { Some(picked) } else { None });
    assert_eq!(r, Some(PlayerColor::distinct(picked)));
    assert_eq!(colors.next_index(), 3);
    assert_eq!(colors.occupied().clone(), vec![picked]);
    assert_eq!(colors.seed(), [1, 2, 3]);
}

#[test]
fn draw_gives_up_after_max_tries() {
    let mut colors = DistinctColors::new([0, 0, 0]);
    let r = colors.next(|_i: usize| None);
    assert_eq!(r, None);
    assert_eq!(colors.next_index(), MAX_DISTINCT_TRIES);
    assert!(colors.occupied().is_empty());
}

#[test]
fn assign_prefers_override_then_draw_then_fallback() {
    let mut colors = DistinctColors::new([0, 0, 0]);
    let own = rgb(9, 9, 9);
    assert_eq!(colors.assign(Some(own), |_i: usize| None), PlayerColor::custom(own));
    assert_eq!(colors.next_index(), 0);
    let drawn = rgb(7, 7, 7);
    assert_eq!(colors.assign(None, |_i: usize| Some(drawn)), PlayerColor::distinct(drawn));
    assert_eq!(colors.assign(None, |_i: usize| None), PlayerColor::distinct(fallback_color()));
    assert_eq!(colors.occupied().clone(), vec![own, drawn]);
}

#[test]
fn remove_frees_first_occurrence_only() {
    let mut colors = DistinctColors::new([0, 0, 0]);
    let a = rgb(1, 1, 1);
    let b = rgb(2, 2, 2);
    colors.push_occupied(a);
    colors.push_occupied(b);
    colors.push_occupied(a);
    colors.remove_occupied(a);
    assert_eq!(colors.occupied().clone(), vec![b, a]);
    colors.remove_occupied(rgb(3, 3, 3));
    assert_eq!(colors.occupied().clone(), vec![b, a]);
}

#[test]
fn push_then_remove_restores_occupied() {
    let mut colors = DistinctColors::new([0, 0, 0]);
    colors.push_occupied(rgb(4, 4, 4));
    let before = colors.occupied().clone();
    colors.push_occupied(rgb(5, 5, 5));
    colors.remove_occupied(rgb(5, 5, 5));
    assert_eq!(colors.occupied().clone(), before);
}

#[test]
fn successive_draws_move_on() {
    let mut colors = DistinctColors::new([0, 0, 0]);
    let a = rgb(1, 1, 1);
    let b = rgb(2, 2, 2);
    colors.next(|i: usize| if i == 3 { Some(a) } else { None });
    let first = colors.next_index();
    colors.push_occupied(rgb(9, 9, 9));
    colors.next(|i: usize| if i >= 3 { Some(b) } else { None });
    let second = colors.next_index();
    assert_eq!(first, 4);
    assert_eq!(second, 5);
    assert_eq!(colors.occupied().clone(), vec![a, rgb(9, 9, 9), b]);
}

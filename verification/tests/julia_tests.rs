use smoke::julia::{parse_save_line, JuliaSaves};

fn chars(s: &str) -> Vec<char> {
    s.chars().collect()
}

fn text(v: &[char]) -> String {
    v.iter().collect()
}

fn bits(x: f32, y: f32) -> (u32, u32) {
    (x.to_bits(), y.to_bits())
}

#[test]
fn save_line_with_two_fields() {
    let (a, b) = parse_save_line(&chars("0.70176,0.3842")).unwrap();
    assert_eq!(text(&a), "0.70176");
    assert_eq!(text(&b), "0.3842");
}

#[test]
fn save_line_fields_are_trimmed() {
    let (a, b) = parse_save_line(&chars("  1.5 ,\t-2\r")).unwrap();
    assert_eq!(text(&a), "1.5");
    assert_eq!(text(&b), "-2");
    let (a, b) = parse_save_line(&chars("\u{a0}3,4\u{3000}")).unwrap();
    assert_eq!(text(&a), "3");
    assert_eq!(text(&b), "4");
}

#[test]
fn save_line_without_exactly_one_comma() {
    assert!(parse_save_line(&chars("")).is_none());
    assert!(parse_save_line(&chars("   ")).is_none());
    assert!(parse_save_line(&chars("1.0")).is_none());
    assert!(parse_save_line(&chars("1,2,3")).is_none());
}

#[test]
fn save_line_round_trip() {
    let line = format!("{},{}", 0.25f32, -1.5f32);
    let (a, b) = parse_save_line(&chars(&line)).unwrap();
    assert_eq!(text(&a).parse::<f32>().unwrap(), 0.25);
    assert_eq!(text(&b).parse::<f32>().unwrap(), -1.5);
}

#[test]
fn browsing_with_no_saves_changes_nothing() {
    let mut s = JuliaSaves::new(bits(0.70176, 0.3842));
    s.check_for_save(None, true, true);
    assert_eq!(s.julia_const, bits(0.70176, 0.3842));
    assert_eq!(s.saved_julia_const_index, 0);
}

#[test]
fn browsing_steps_and_stops_at_ends() {
    let saves = vec![bits(1.0, 1.0), bits(2.0, 2.0), bits(3.0, 3.0)];
    let mut s = JuliaSaves::new(bits(0.5, 0.5));
    s.check_for_save(Some(saves), false, false);
    assert_eq!(s.saved_julia_consts.len(), 3);
    assert_eq!(s.saved_julia_const_index, 0);
    // reloading alone does not change the current constant
    assert_eq!(s.julia_const, bits(0.5, 0.5));

    s.check_for_save(None, true, false);
    assert_eq!(s.saved_julia_const_index, 0);
    assert_eq!(s.julia_const, bits(0.5, 0.5));

    s.check_for_save(None, false, true);
    assert_eq!(s.saved_julia_const_index, 1);
    assert_eq!(s.julia_const, bits(2.0, 2.0));

    s.check_for_save(None, false, true);
    s.check_for_save(None, false, true);
    assert_eq!(s.saved_julia_const_index, 2);
    assert_eq!(s.julia_const, bits(3.0, 3.0));

    s.check_for_save(None, true, false);
    assert_eq!(s.saved_julia_const_index, 1);
    assert_eq!(s.julia_const, bits(2.0, 2.0));

    // both keys in one frame: back first, then forward
    s.check_for_save(None, true, true);
    assert_eq!(s.saved_julia_const_index, 1);
    assert_eq!(s.julia_const, bits(2.0, 2.0));
}

#[test]
fn reload_pulls_cursor_into_shorter_list() {
    let mut s = JuliaSaves::new(bits(0.0, 0.0));
    s.check_for_save(Some(vec![bits(1.0, 1.0), bits(2.0, 2.0), bits(3.0, 3.0)]), false, true);
    s.check_for_save(None, false, true);
    assert_eq!(s.saved_julia_const_index, 2);
    s.check_for_save(Some(vec![bits(9.0, 9.0)]), false, false);
    assert_eq!(s.saved_julia_const_index, 0);
    assert_eq!(s.julia_const, bits(3.0, 3.0));
}

use rusciify::character_map::CharacterMap;

fn ramp(n: u32) -> CharacterMap {
    CharacterMap((0..n).map(|i| char::from_u32(0x100 + i).unwrap()).collect())
}

#[test]
fn default_ramp_has_ten_steps() {
    let m = CharacterMap::default();
    assert_eq!(m.0, vec![' ', '.', ':', '-', '=', '+', '*', '#', '%', '@']);
    assert_eq!(m.len(), 10);
}

#[test]
fn ramp_from_string_keeps_order() {
    let m = CharacterMap::from("ab\u{e9}");
    assert_eq!(m.0, vec!['a', 'b', '\u{e9}']);
    assert_eq!(m.len(), 3);
}

#[test]
fn luma_extremes_hit_first_and_last_bucket() {
    for n in [1u32, 2, 10, 256] {
        let m = ramp(n);
        assert_eq!(m.index(0), m.0[0]);
        assert_eq!(m.index(255), m.0[n as usize - 1]);
    }
}

#[test]
fn bucket_is_floor_of_scaled_luma() {
    let m = ramp(10);
    for v in 0..=255u32 {
        let expected = (v * 10 / 256) as usize;
        assert_eq!(m.index(v as u8), m.0[expected]);
    }
    assert_eq!(m.index(25), m.0[0]);
    assert_eq!(m.index(26), m.0[1]);
    assert_eq!(m.index(230), m.0[8]);
    assert_eq!(m.index(231), m.0[9]);
}

#[test]
fn uneven_ramp_boundaries() {
    let m = ramp(3);
    assert_eq!(m.index(85), m.0[0]);
    assert_eq!(m.index(86), m.0[1]);
    assert_eq!(m.index(170), m.0[1]);
    assert_eq!(m.index(171), m.0[2]);
}

#[test]
fn long_ramp_never_reaches_past_luma() {
    let m = ramp(300);
    assert_eq!(m.index(255), m.0[298]);
}

#[test]
fn brighter_luma_never_lowers_the_bucket() {
    let m = ramp(7);
    let pos = |c: char| m.0.iter().position(|&d| d == c).unwrap();
    let mut last = 0;
    for v in 0..=255u8 {
        let p = pos(m.index(v));
        assert!(p >= last);
        last = p;
    }
    assert_eq!(last, 6);
}

#[test]
fn solid_ramp_is_one_full_block() {
    let m = CharacterMap::solid();
    assert_eq!(m.0, vec!['\u{2588}']);
    assert_eq!(m.index(0), '\u{2588}');
    assert_eq!(m.index(255), '\u{2588}');
}

use omnichat::color::{djb2, palette, sender_color};

#[test]
fn djb2_of_empty_input_is_the_seed() {
    assert_eq!(djb2(""), 5381);
}

#[test]
fn djb2_of_one_byte_matches_the_formula() {
    // 5381 * 33 + 'A'
    assert_eq!(djb2("A"), 5381 * 33 + 65);
}

#[test]
fn palette_has_forty_five_readable_colors() {
    let colors = palette();
    assert_eq!(colors.len(), 45);
    // First cell of the cube walk: r = g = b = 1.
    assert_eq!(colors[0], 16 + 36 + 6 + 1);
    for c in colors {
        assert!(c >= 16);
    }
}

#[test]
fn same_sender_always_gets_the_same_color() {
    let a = sender_color("alice");
    for _ in 0..5 {
        assert_eq!(sender_color("alice"), a);
    }
    let owned = String::from("alice");
    assert_eq!(sender_color(&owned), a);
}

#[test]
fn sender_color_is_a_palette_entry() {
    let colors = palette();
    for name in ["alice", "bob", "carol", "", "Zebra-9000"] {
        let c = sender_color(name);
        assert!(colors.contains(&c));
    }
}

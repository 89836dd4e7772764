use tyche::color::Color;

#[test]
fn reads_uppercase_hex() {
    let c = Color::from("#FF00A080".to_string());
    assert_eq!(c.red, 255);
    assert_eq!(c.green, 0);
    assert_eq!(c.blue, 160);
    assert_eq!(c.alpha, 128);
}

#[test]
fn reads_lowercase_and_mixed_hex() {
    let c = Color::from("#ff00a080".to_string());
    assert_eq!((c.red, c.green, c.blue, c.alpha), (255, 0, 160, 128));
    let d = Color::from("#Ff00a080".to_string());
    assert_eq!((d.red, d.green, d.blue, d.alpha), (255, 0, 160, 128));
}

#[test]
fn strips_every_leading_hash_and_ignores_the_tail() {
    let c = Color::from("##0102030400garbage".to_string());
    assert_eq!((c.red, c.green, c.blue, c.alpha), (1, 2, 3, 4));
    let d = Color::from("01020304".to_string());
    assert_eq!((d.red, d.green, d.blue, d.alpha), (1, 2, 3, 4));
}

#[test]
fn formats_as_uppercase_hex_with_hash() {
    let c = Color { red: 10, green: 11, blue: 12, alpha: 13 };
    assert_eq!(c.to_string(), "#0A0B0C0D");
    let w = Color { red: 255, green: 255, blue: 255, alpha: 255 };
    assert_eq!(w.to_string(), "#FFFFFFFF");
    let k = Color { red: 0, green: 0, blue: 0, alpha: 0 };
    assert_eq!(k.to_string(), "#00000000");
}

#[test]
fn format_then_read_returns_the_same_color() {
    let c = Color { red: 33, green: 200, blue: 7, alpha: 250 };
    let back = Color::from(c.to_string());
    assert_eq!(back, c);
}

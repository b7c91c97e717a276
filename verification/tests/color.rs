use niribg::color::{Color, DimSteps, ParseColorError};

#[test]
fn parses_all_lengths() {
    assert_eq!(
        "#fff".parse::<Color>().unwrap(),
        Color { r: 255, g: 255, b: 255, a: 255 }
    );
    assert_eq!(
        "#1e1e2e".parse::<Color>().unwrap(),
        Color { r: 0x1e, g: 0x1e, b: 0x2e, a: 255 }
    );
    assert_eq!(
        "#1e1e2e80".parse::<Color>().unwrap(),
        Color { r: 0x1e, g: 0x1e, b: 0x2e, a: 0x80 }
    );
}

#[test]
fn hash_is_optional() {
    assert_eq!("000000".parse::<Color>().unwrap(), Color::black());
}

#[test]
fn rejects_bad_input() {
    assert!(matches!("#12345".parse::<Color>(), Err(ParseColorError::Length)));
    assert!(matches!("#gggggg".parse::<Color>(), Err(ParseColorError::Digit)));
    assert!("".parse::<Color>().is_err());
}

#[test]
fn display_roundtrips() {
    for s in ["#1e1e2e", "#1e1e2e80"] {
        let c: Color = s.parse().unwrap();
        assert_eq!(c.to_string(), s);
        assert_eq!(c.to_string().parse::<Color>().unwrap(), c);
    }
    assert_eq!("#abc".parse::<Color>().unwrap().to_string(), "#aabbcc");
}

#[test]
fn shm_bgra_is_premultiplied() {
    assert_eq!(Color::black().to_shm_bgra(), [0, 0, 0, 255]);
    assert_eq!(
        Color { r: 255, g: 128, b: 0, a: 255 }.to_shm_bgra(),
        [0, 128, 255, 255]
    );
    assert_eq!(
        Color { r: 255, g: 255, b: 255, a: 128 }.to_shm_bgra(),
        [128, 128, 128, 128]
    );
}

#[test]
fn upper_case_digits_and_signs() {
    assert_eq!(
        "#ABCDEF".parse::<Color>().unwrap(),
        Color { r: 0xab, g: 0xcd, b: 0xef, a: 255 }
    );
    assert_eq!("#+f+f+f".parse::<Color>(), Err(ParseColorError::Digit));
    assert_eq!("é1".parse::<Color>(), Err(ParseColorError::Digit));
    assert_eq!("##fff".parse::<Color>(), Err(ParseColorError::Length));
}

#[test]
fn color_error_texts_differ() {
    assert_ne!(ParseColorError::Length.to_string(), ParseColorError::Digit.to_string());
}

#[test]
fn default_colour_is_black() {
    assert_eq!(Color::default(), Color { r: 0, g: 0, b: 0, a: 255 });
}

#[test]
fn dimming_follows_the_table_and_keeps_alpha() {
    let half: Vec<u8> = (0..=255u32).map(|v| (v / 2) as u8).collect();
    let dim = DimSteps::new(half).unwrap();
    assert_eq!(
        Color { r: 200, g: 100, b: 51, a: 77 }.dimmed(&dim),
        Color { r: 100, g: 50, b: 25, a: 77 }
    );
    assert!(DimSteps::new(vec![0; 255]).is_none());
    assert!(DimSteps::new(vec![0; 257]).is_none());
}

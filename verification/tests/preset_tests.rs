use si_img::GlyphEntry;
use si_img::GlyphRaster;
use si_img::PresetError;
use si_img::ScaleMetrics;
use si_img::SiFont;
use si_img::SiImage;
use si_img::SiPreset;
use si_img::TextOptions;
use si_img::Value;
use si_img::ValueBag;
use si_img::ValueKind;

fn blank(w: u32, h: u32) -> SiImage {
    SiImage::from_pixels(w, h, vec![255u8; (4 * w * h) as usize]).unwrap()
}

fn tiny_font() -> SiFont {
    let raster = GlyphRaster {
        bearing_x: 0,
        bearing_y: -4,
        width: 3,
        height: 4,
        coverage: vec![255u8; 12],
    };
    SiFont::new(
        vec![ScaleMetrics { scale: 8, ascent: 4 }],
        vec![GlyphEntry { ch: 'H', scale: 8, raster: Some(raster) }],
    )
}

#[test]
fn bag_get_returns_inserted_value() {
    let mut bag = ValueBag::new();
    bag.insert("size".to_string(), Value::Number(42));
    let v = bag.get("size").unwrap();
    assert_eq!(v.as_number(), Some(42));
}

#[test]
fn bag_get_missing_key_is_none() {
    let mut bag = ValueBag::new();
    bag.insert("size".to_string(), Value::Number(42));
    assert!(bag.get("color").is_none());
}

#[test]
fn bag_later_insert_shadows_earlier() {
    let mut bag = ValueBag::new();
    bag.insert("size".to_string(), Value::Number(1));
    bag.insert("size".to_string(), Value::Number(2));
    assert_eq!(bag.get("size").unwrap().as_number(), Some(2));
    assert_eq!(bag.len(), 2);
}

#[test]
fn bag_require_matching_kind_is_ok() {
    let mut bag = ValueBag::new();
    bag.insert("title".to_string(), Value::Text("hello".to_string()));
    let v = bag.require("title", ValueKind::Text).unwrap();
    assert_eq!(v.as_text().unwrap().as_str(), "hello");
}

#[test]
fn bag_require_missing_key_names_it() {
    let bag = ValueBag::new();
    match bag.require("title", ValueKind::Text) {
        Err(PresetError::MissingParameter { param }) => assert_eq!(param, "title"),
        _ => panic!("expected a missing-parameter error"),
    }
}

#[test]
fn bag_require_wrong_kind_names_both_kinds() {
    let mut bag = ValueBag::new();
    bag.insert("title".to_string(), Value::Number(7));
    match bag.require("title", ValueKind::Text) {
        Err(PresetError::TypeMismatch { param, expected, found }) => {
            assert_eq!(param, "title");
            assert_eq!(expected, ValueKind::Text);
            assert_eq!(found, ValueKind::Number);
        },
        _ => panic!("expected a type-mismatch error"),
    }
}

#[test]
fn value_kind_tags_match_variants() {
    assert_eq!(Value::Text("x".to_string()).kind(), ValueKind::Text);
    assert_eq!(Value::Number(0).kind(), ValueKind::Number);
    assert_eq!(Value::Color(si_img::Rgb { r: 0, g: 0, b: 0 }).kind(), ValueKind::Color);
    assert_eq!(Value::Image(blank(1, 1)).kind(), ValueKind::Image);
    assert_eq!(Value::Font(tiny_font()).kind(), ValueKind::Font);
}

#[test]
fn load_preset_runs_the_callback() {
    let preset = SiPreset::new(|img: SiImage, bag: ValueBag| {
        let title = match bag.require("title", ValueKind::Text) {
            Ok(v) => v.as_text().unwrap().clone(),
            Err(e) => return Err(e),
        };
        let font = tiny_font();
        let opts = TextOptions::default();
        Ok(img.render_text(title.as_str(), 8, 1, 1, None, &font, &opts))
    });
    let mut bag = ValueBag::new();
    bag.insert("title".to_string(), Value::Text("H".to_string()));
    let out = blank(10, 10).load_preset(&preset, bag).unwrap();
    assert_eq!(out.width(), 10);
    assert_eq!(out.height(), 10);
    // The glyph box corner lands at (1, 1) and renders black.
    let b = out.pixel_bytes();
    let i = 4 * (1 * 10 + 1) as usize;
    assert_eq!(&b[i..i + 4], &[0, 0, 0, 255]);
}

#[test]
fn load_preset_surfaces_missing_parameter() {
    let preset = SiPreset::new(|img: SiImage, bag: ValueBag| {
        match bag.require("title", ValueKind::Text) {
            Ok(_) => Ok(img),
            Err(e) => Err(e),
        }
    });
    let bag = ValueBag::new();
    match blank(4, 4).load_preset(&preset, bag) {
        Err(PresetError::MissingParameter { param }) => assert_eq!(param, "title"),
        _ => panic!("expected a missing-parameter error"),
    }
}

#[test]
fn load_preset_surfaces_type_mismatch() {
    let preset = SiPreset::new(|img: SiImage, bag: ValueBag| {
        match bag.require("title", ValueKind::Text) {
            Ok(_) => Ok(img),
            Err(e) => Err(e),
        }
    });
    let mut bag = ValueBag::new();
    bag.insert("title".to_string(), Value::Number(3));
    match blank(4, 4).load_preset(&preset, bag) {
        Err(PresetError::TypeMismatch { param, expected, found }) => {
            assert_eq!(param, "title");
            assert_eq!(expected, ValueKind::Text);
            assert_eq!(found, ValueKind::Number);
        },
        _ => panic!("expected a type-mismatch error"),
    }
}

#[test]
fn load_preset_ignores_unread_keys() {
    let preset = SiPreset::new(|img: SiImage, _bag: ValueBag| Ok(img));
    let mut bag = ValueBag::new();
    bag.insert("unused".to_string(), Value::Number(1));
    bag.insert("also_unused".to_string(), Value::Text("x".to_string()));
    assert!(blank(4, 4).load_preset(&preset, bag).is_ok());
}

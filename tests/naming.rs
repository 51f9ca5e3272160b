use nai_core::outputs::{
    is_date_component, normalize_rel_path, output_item_from_rel, output_url, parse_output_index,
    sanitize_component, sanitize_rel_path,
};
use nai_core::presets::{quality_tags, uc_preset_id};
use nai_core::store::{contains_text, normalize_tags, parse_tags, snippet_listed, PromptSnippet};

#[test]
fn dates_are_recognised() {
    assert!(is_date_component("2025-12-24"));
    assert!(!is_date_component("2025-12-2"));
    assert!(!is_date_component("2025/12/24"));
    assert!(!is_date_component("20251224xx"));
}

#[test]
fn output_index_is_the_leading_five_digits() {
    assert_eq!(parse_output_index("00042_a1b2c3_123.png"), Some(42));
    assert_eq!(parse_output_index("12345"), Some(12345));
    assert_eq!(parse_output_index("1234"), None);
    assert_eq!(parse_output_index("0004x_a.png"), None);
}

#[test]
fn paths_use_forward_slashes() {
    assert_eq!(normalize_rel_path("t2i\\2025-01-01\\00001.png"), "t2i/2025-01-01/00001.png");
    assert_eq!(output_url("t2i\\a.png"), "/outputs/t2i/a.png");
}

#[test]
fn output_items_group_by_operation_and_date() {
    let it = output_item_from_rel("text2image/2025-12-24/00001_a1b2c3_1.png");
    assert_eq!(it.path, "text2image/2025-12-24/00001_a1b2c3_1.png");
    assert_eq!(it.op_type, "text2image");
    assert_eq!(it.date, "2025-12-24");
    assert_eq!(it.filename, "00001_a1b2c3_1.png");

    let it = output_item_from_rel("director/2025-01-02/x.png");
    assert_eq!(it.op_type, "director");
    assert_eq!(it.date, "2025-01-02");

    let it = output_item_from_rel("director\\emotion\\2025-01-02\\x.png");
    assert_eq!(it.op_type, "director/emotion");
    assert_eq!(it.date, "2025-01-02");
    assert_eq!(it.filename, "x.png");

    let it = output_item_from_rel("director/lineart/3/2025-01-02/x.png");
    assert_eq!(it.op_type, "director/lineart");
    assert_eq!(it.date, "2025-01-02");

    let it = output_item_from_rel("");
    assert_eq!(it.op_type, "");
    assert_eq!(it.filename, "");
}

#[test]
fn undesired_content_presets() {
    assert_eq!(uc_preset_id("nai-diffusion-4-5-full", "Human Focus"), 3);
    assert_eq!(uc_preset_id("nai-diffusion-4-5-full", "whatever"), 4);
    assert_eq!(uc_preset_id("nai-diffusion-3", "Human Focus"), 2);
    assert_eq!(uc_preset_id("nai-diffusion-4-full", "Light"), 1);
    assert_eq!(uc_preset_id("nai-diffusion-4-full", "None"), 2);
    assert_eq!(uc_preset_id("other", "Light"), 0);
}

#[test]
fn quality_tags_per_model() {
    assert_eq!(quality_tags("nai-diffusion-furry-3"), ", {best quality}, {amazing quality}");
    assert_eq!(quality_tags("nai-diffusion-4-5-full"), ", very aesthetic, masterpiece, no text");
    assert_eq!(quality_tags("unknown"), "");
}

#[test]
fn tags_are_split_and_trimmed() {
    assert_eq!(parse_tags(Some(" a, b ,,c , ".to_string())), vec!["a", "b", "c"]);
    assert_eq!(parse_tags(Some("".to_string())), Vec::<String>::new());
    assert_eq!(parse_tags(None), Vec::<String>::new());
}

#[test]
fn tags_are_normalised() {
    let tags = vec![" B ".to_string(), "a".to_string(), "".to_string(), "b".to_string(), "  ".to_string(), "Ä".to_string()];
    assert_eq!(normalize_tags(&tags), vec!["a".to_string(), "b".to_string(), "ä".to_string()]);
    assert_eq!(normalize_tags(&Vec::new()), Vec::<String>::new());
}

#[test]
fn components_are_sanitised() {
    assert_eq!(sanitize_component("a<b>c".to_string()), "a_b_c");
    assert_eq!(sanitize_component("x\u{7}y".to_string()), "xy");
    assert_eq!(sanitize_component("name. . ".to_string()), "name");
    assert_eq!(sanitize_component("..".to_string()), "_");
    assert_eq!(sanitize_component("".to_string()), "_");
    assert_eq!(sanitize_component("con".to_string()), "_con");
    assert_eq!(sanitize_component("Com7".to_string()), "_Com7");
    assert_eq!(sanitize_component("LPT+12".to_string()), "_LPT+12");
    assert_eq!(sanitize_component("COM256".to_string()), "COM256");
    assert_eq!(sanitize_component("COM".to_string()), "COM");
    assert_eq!(sanitize_component("console".to_string()), "console");
}

#[test]
fn relative_paths_are_sanitised() {
    assert_eq!(sanitize_rel_path("a\\b//c:d/"), "a/b/c_d");
    assert_eq!(sanitize_rel_path(""), "");
    assert_eq!(sanitize_rel_path("/nul/x./"), "_nul/x");
}

fn snippet(tags: &[&str], description: Option<&str>) -> PromptSnippet {
    PromptSnippet {
        body: "x".to_string(),
        tags: tags.iter().map(|t| t.to_string()).collect(),
        description: description.map(|d| d.to_string()),
    }
}

#[test]
fn text_search() {
    assert!(contains_text("Hello world", "lo w"));
    assert!(contains_text("abc", ""));
    assert!(!contains_text("abc", "abcd"));
    assert!(!contains_text("abc", "ac"));
}

#[test]
fn snippet_listing_filters() {
    let none: Vec<String> = Vec::new();
    let s = snippet(&["Hair", "eyes"], Some("Long HAIR style"));
    assert!(snippet_listed("long-hair", &s, None, &none));
    assert!(snippet_listed("LONG-hair", &s, Some("long"), &none));
    assert!(snippet_listed("x", &s, Some("hai"), &none));
    assert!(!snippet_listed("x", &s, Some("style"), &none));
    assert!(snippet_listed("x", &s, Some("absent"), &none));
    assert!(snippet_listed("x", &s, None, &vec!["hair".to_string()]));
    assert!(!snippet_listed("x", &s, None, &vec!["nose".to_string()]));
}

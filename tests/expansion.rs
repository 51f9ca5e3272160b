use nai_core::snippet::{
    apply_snippets_to_base, expand_prompts_pair, ExpansionWarning, PromptTexts, SnippetTable,
    MAX_DEPTH, MAX_TOTAL_EXPANSIONS,
};

fn table(pairs: &[(&str, &str)]) -> SnippetTable {
    SnippetTable {
        entries: pairs.iter().map(|(n, b)| (n.to_string(), b.to_string())).collect(),
    }
}

#[test]
fn plain_text_passes_through() {
    let r = expand_prompts_pair(false, &table(&[]), "a cat, <b>sitting</b>", "");
    assert_eq!(r.positive, "a cat, <b>sitting</b>");
    assert_eq!(r.negative, "");
    assert!(r.warnings.is_empty());
}

#[test]
fn tokens_are_replaced_in_order() {
    let t = table(&[("hair", "long hair"), ("eyes", "blue eyes")]);
    let r = expand_prompts_pair(false, &t, "girl, <snippet:hair>, < snippet: eyes >!", "<snippet:eyes>");
    assert_eq!(r.positive, "girl, long hair, blue eyes!");
    assert_eq!(r.negative, "blue eyes");
    assert!(r.warnings.is_empty());
}

#[test]
fn nested_snippets_expand() {
    let t = table(&[("outer", "x <snippet:inner> y"), ("inner", "z")]);
    let r = expand_prompts_pair(false, &t, "<snippet:outer>", "");
    assert_eq!(r.positive, "x z y");
}

#[test]
fn self_cycle_is_reported_with_its_chain() {
    let t = table(&[("greeting", "hi <snippet:greeting>")]);
    let r = expand_prompts_pair(true, &t, "<snippet:greeting>", "");
    let msgs = r.warning_messages();
    assert!(msgs.iter().any(|m| m.contains("greeting -> greeting")));
    match &r.warnings[0] {
        ExpansionWarning::Cycle(chain) => assert_eq!(chain, &vec!["greeting".to_string(), "greeting".to_string()]),
        other => panic!("unexpected {:?}", other),
    }
    assert_eq!(r.warnings.len(), 1);
    assert_eq!(r.positive, "hi");
}

#[test]
fn budget_allows_sixty_four_resolutions() {
    let names: Vec<String> = (0..70).map(|i| format!("s{i:02}")).collect();
    let pairs: Vec<(String, String)> = names.iter().map(|n| (n.clone(), format!("v{}", &n[1..]))).collect();
    let t = SnippetTable { entries: pairs };
    let input: Vec<String> = names.iter().map(|n| format!("<snippet:{n}>")).collect();
    let r = expand_prompts_pair(false, &t, &input.join(" "), "");
    let expected: Vec<String> = (0..64).map(|i| format!("v{i:02}")).collect();
    assert_eq!(r.positive, format!("{}{}", expected.join(" "), " ".repeat(6)));
    assert_eq!(r.warnings.len(), 6);
    for (k, w) in r.warnings.iter().enumerate() {
        match w {
            ExpansionWarning::BudgetExhausted(n) => assert_eq!(n, &names[64 + k]),
            other => panic!("unexpected {:?}", other),
        }
        assert!(w.message().contains("expansion limit reached"));
        assert!(w.message().contains(&names[64 + k]));
    }
    assert_eq!(MAX_TOTAL_EXPANSIONS, 64);
}

#[test]
fn budget_is_shared_by_both_texts() {
    let t = table(&[("a", "A")]);
    let many = vec!["<snippet:a>"; 60].join("");
    let r = expand_prompts_pair(false, &t, &many, "<snippet:a><snippet:a><snippet:a><snippet:a><snippet:a>");
    assert_eq!(r.positive, "A".repeat(60));
    assert_eq!(r.negative, "AAAA");
    assert_eq!(r.warnings.len(), 1);
}

#[test]
fn depth_is_bounded() {
    let t = table(&[
        ("a", "A <snippet:b> <snippet:x>"),
        ("b", "B <snippet:c>"),
        ("c", "C <snippet:d>"),
        ("d", "D <snippet:e>"),
        ("e", "E <snippet:f>"),
        ("f", "F <snippet:g>"),
        ("g", "G <snippet:h>"),
        ("h", "H <snippet:i>"),
        ("i", "I"),
        ("x", "X"),
    ]);
    let r = expand_prompts_pair(true, &t, "<snippet:a>", "");
    assert_eq!(r.positive, "A B C D E F G H X");
    assert_eq!(r.warnings.len(), 1);
    match &r.warnings[0] {
        ExpansionWarning::DepthExceeded(n) => assert_eq!(n, "i"),
        other => panic!("unexpected {:?}", other),
    }
    assert_eq!(MAX_DEPTH, 8);
}

#[test]
fn empty_and_missing_names_warn() {
    let t = table(&[("blank", "  ")]);
    let r = expand_prompts_pair(false, &t, "[<snippet:  >][<snippet:nope>][<snippet:blank>]", "");
    assert_eq!(r.positive, "[][][  ]");
    let msgs = r.warning_messages();
    assert_eq!(msgs[0], "empty snippet name ignored");
    assert_eq!(msgs[1], "snippet not found: nope");
    assert_eq!(msgs.len(), 2);
}

#[test]
fn blank_body_warns_when_normalised() {
    let t = table(&[("blank", "   ")]);
    let r = expand_prompts_pair(true, &t, "a <snippet:blank> b", "");
    assert_eq!(r.positive, "a b");
    assert_eq!(r.warning_messages(), vec!["snippet expanded to nothing: blank".to_string()]);
}

#[test]
fn malformed_tokens_stay_verbatim() {
    let t = table(&[("a", "A")]);
    let r = expand_prompts_pair(false, &t, "<snippet:> <snippet:a <snip:a> <snippet:a", "");
    assert_eq!(r.positive, "<snippet:>  <snippet:a");
    assert_eq!(r.warning_messages(), vec!["snippet not found: a <snip:a".to_string()]);
    let r2 = expand_prompts_pair(false, &t, "<snippet:> <snippet:a> <snip:a>", "");
    assert_eq!(r2.positive, "<snippet:> A <snip:a>");
}

#[test]
fn first_table_entry_wins_and_cache_is_reused() {
    let t = table(&[("a", "first"), ("a", "second")]);
    let r = expand_prompts_pair(false, &t, "<snippet:a> <snippet:a>", "");
    assert_eq!(r.positive, "first first");
}

#[test]
fn expansion_is_deterministic() {
    let t = table(&[("a", "x, <snippet:b>"), ("b", "<snippet:a>")]);
    let r1 = expand_prompts_pair(true, &t, "<snippet:a> <snippet:zz>", "<snippet:b>");
    let r2 = expand_prompts_pair(true, &t, "<snippet:a> <snippet:zz>", "<snippet:b>");
    assert_eq!(r1.positive, r2.positive);
    assert_eq!(r1.negative, r2.negative);
    assert_eq!(r1.warning_messages(), r2.warning_messages());
}

#[test]
fn request_texts_are_expanded_in_place() {
    let t = table(&[("hair", "long hair")]);
    let mut base = PromptTexts {
        positive: "<snippet:hair>, smile".to_string(),
        negative: "<snippet:missing>".to_string(),
        characters: vec![
            ("  ".to_string(), "".to_string()),
            ("boy, <snippet:hair>".to_string(), "<snippet:gone>".to_string()),
        ],
    };
    let warnings = apply_snippets_to_base(true, &t, &mut base);
    assert_eq!(base.positive, "long hair, smile");
    assert_eq!(base.negative, "");
    assert_eq!(base.characters[0], ("  ".to_string(), "".to_string()));
    assert_eq!(base.characters[1], ("boy, long hair".to_string(), "".to_string()));
    let msgs: Vec<String> = warnings.iter().map(|w| w.message()).collect();
    assert_eq!(msgs, vec!["snippet not found: missing".to_string(), "snippet not found: gone".to_string()]);
}

use rag_chat::context::VerseContext;
use rag_chat::prompt::{generate_user_prompt, render_prompt};

fn doc_with_kjv() -> VerseContext {
    let mut c = VerseContext::new("G".to_string());
    c.insert_translation("KJV".to_string(), "K".to_string());
    c
}

#[test]
fn scenario_kjv_translation_and_question() {
    let c = doc_with_kjv();
    let p = generate_user_prompt(&c, "why?");
    assert!(p.contains("- John 3:16 (KJV): K"));
    assert!(p.ends_with("**why?**"));
}

#[test]
fn question_is_trimmed() {
    let c = doc_with_kjv();
    let p = generate_user_prompt(&c, "  why?\n");
    assert!(p.ends_with("\n\n**why?**"));
    assert!(!p.contains("  why?"));
}

#[test]
fn exact_layout_of_small_document() {
    let mut c = VerseContext::new("G".to_string());
    c.insert_translation("KJV".to_string(), "K".to_string());
    c.insert_notes("TN".to_string(), vec!["a".to_string(), "b".to_string()]);
    c.insert_snippet("loved".to_string(), vec!["c".to_string()]);
    let p = render_prompt(&c, "q");
    let expected = format!(
        "# Source Documents\n\n{}\n\n# Greek-English Juxtalinear Translation\n\n{}\n\n# English Bible Translations\n\n{}\n{}\n# Verse Notes\n\n{}\n{}\n# Notes on key words in the verse\n\n{}\n{}\n# The user's question\n\n{}\n\n**{}**",
        "Here are some important documents. You should base your answer to her questions on these documents.",
        "G",
        "Here are different English Bible translations of the same verse. These are important. Pay attention to the names of the translations, and to the differences between the translations for this verse.",
        "\n- John 3:16 (KJV): K\n",
        "Here are some notes on the whole verse. These are NOT Bible translations. The notes apply to ALL Bible translations. These notes help us to understand the Bible translations.",
        "\n- John 3:16 from the TN: (1) a (2) b \n",
        "Here are some notes on important words in this verse. These notes are also NOT Bible translations. They refer to the unfoldingWord Literal Translation, but may be applied to other Bible translations.",
        "\n- the word or words 'loved' in John 3:16: (1) c \n",
        "Now answer the following question, in English, using only the documents above.",
        "q"
    );
    assert_eq!(p, expected);
}

#[test]
fn prompt_is_deterministic() {
    let mut c = doc_with_kjv();
    c.insert_notes("TN".to_string(), vec!["x".to_string()]);
    let a = generate_user_prompt(&c, "what does it mean?");
    let b = generate_user_prompt(&c, "what does it mean?");
    assert_eq!(a, b);
}

#[test]
fn translations_render_in_label_order() {
    let mut c = VerseContext::new("G".to_string());
    c.insert_translation("NIV".to_string(), "N".to_string());
    c.insert_translation("ESV".to_string(), "E".to_string());
    c.insert_translation("KJV".to_string(), "K".to_string());
    let p = render_prompt(&c, "q");
    let e = p.find("(ESV): E").unwrap();
    let k = p.find("(KJV): K").unwrap();
    let n = p.find("(NIV): N").unwrap();
    assert!(e < k && k < n);
}

#[test]
fn notes_and_snippets_render_in_label_order() {
    let mut c = VerseContext::new("G".to_string());
    c.insert_notes("b".to_string(), vec!["y".to_string()]);
    c.insert_notes("a".to_string(), vec!["x".to_string()]);
    c.insert_snippet("world".to_string(), vec!["w".to_string()]);
    c.insert_snippet("God".to_string(), vec!["g".to_string()]);
    let p = render_prompt(&c, "q");
    assert!(p.find("from the a:").unwrap() < p.find("from the b:").unwrap());
    assert!(p.find("'God'").unwrap() < p.find("'world'").unwrap());
}

#[test]
fn empty_sections_keep_their_preambles() {
    let c = VerseContext::new("G".to_string());
    let p = render_prompt(&c, "q");
    assert!(p.contains("differences between the translations for this verse.\n\n# Verse Notes\n\n"));
    assert!(p.contains("help us to understand the Bible translations.\n\n# Notes on key words in the verse\n\n"));
    assert!(p.contains("may be applied to other Bible translations.\n\n# The user's question\n\n"));
    assert!(!p.contains("\n- "));
}

#[test]
fn numbering_restarts_for_each_label() {
    let mut c = VerseContext::new("G".to_string());
    c.insert_notes("A".to_string(), vec!["x".to_string(), "y".to_string(), "z".to_string()]);
    c.insert_notes("B".to_string(), vec!["u".to_string(), "v".to_string()]);
    let p = render_prompt(&c, "q");
    assert!(p.contains("\n- John 3:16 from the A: (1) x (2) y (3) z \n"));
    assert!(p.contains("\n- John 3:16 from the B: (1) u (2) v \n"));
}

#[test]
fn numbering_goes_past_nine() {
    let mut c = VerseContext::new("G".to_string());
    let notes: Vec<String> = (0..12).map(|i| format!("n{}", i)).collect();
    c.insert_snippet("love".to_string(), notes);
    let p = render_prompt(&c, "q");
    assert!(p.contains("(9) n8 (10) n9 (11) n10 (12) n11 \n"));
}

use hoi4ms::paradox::edit::{apply_edits, insert_lines, BlockEditor, TextEdit};
use hoi4ms::paradox::lexer::{needs_quotes, quote, tokenize, TokenKind};
use hoi4ms::paradox::{line_of, parse, Items, Span};

const SAMPLE: &str = r#"
focus_tree = {
    id = test_tree
    country = { factor = 1 }

    focus = {
        id = test_focus # trailing comment
        icon = GFX_goal_generic_demand_territory
        x = 3
        y = 0
        cost = 10
        prerequisite = { focus = other_focus }
        completion_reward = {
            add_political_power = 120
        }
    }
}
"#;

#[test]
fn parses_nested_blocks() {
    let document = parse(SAMPLE).expect("sample parses");
    let tree = document.find("focus_tree").expect("focus_tree exists");
    let tree_block = tree.value.as_block().expect("focus_tree is a block");

    assert_eq!(tree_block.scalar("id").as_deref(), Some("test_tree"));

    let focus = tree_block.find("focus").expect("focus exists");
    let focus_block = focus.value.as_block().expect("focus is a block");
    assert_eq!(focus_block.scalar("id").as_deref(), Some("test_focus"));
    assert_eq!(focus_block.scalar("x").as_deref(), Some("3"));
}

#[test]
fn ignores_comments_and_reads_inline_blocks() {
    let document = parse(SAMPLE).expect("sample parses");
    let tree = document.block("focus_tree").expect("focus_tree");
    let focus_block = tree.block("focus").expect("focus is a block");

    // The trailing comment is not part of the value.
    assert_eq!(focus_block.scalar("id").as_deref(), Some("test_focus"));

    let prerequisite = focus_block.block("prerequisite").expect("prerequisite");
    assert_eq!(prerequisite.scalar("focus").as_deref(), Some("other_focus"));
}

#[test]
fn spans_point_back_at_the_source() {
    let document = parse(SAMPLE).expect("sample parses");
    let tree = document.find("focus_tree").expect("focus_tree exists");
    let block = tree.value.as_block().expect("block");
    let id = block.find("id").expect("id");

    assert_eq!(id.span.text(SAMPLE), "id = test_tree");
    assert_eq!(id.value.span().text(SAMPLE), "test_tree");
}

#[test]
fn quoted_values_are_unescaped() {
    let document = parse(r#"name = "A \"quoted\" name""#).expect("parses");
    assert_eq!(
        document.scalar("name").as_deref(),
        Some(r#"A "quoted" name"#)
    );
}

#[test]
fn reads_bare_lists() {
    let document = parse("tags = { \"Alternative History\" Gameplay }").expect("parses");
    let block = document.block("tags").expect("tags block");
    assert_eq!(block.items.len(), 2);
}

#[test]
fn skips_comments_and_whitespace() {
    let tokens = tokenize("# a comment\nid = alpha\n");
    let kinds: Vec<&TokenKind> = tokens.iter().map(|token| &token.kind).collect();

    assert_eq!(
        kinds,
        vec![&TokenKind::Word, &TokenKind::Operator, &TokenKind::Word]
    );
    assert_eq!(tokens[2].raw, "alpha");
}

#[test]
fn keeps_a_bracketed_reference_as_one_word() {
    let tokens = tokenize("VALUE = [?idea_cost]\nname = [Root.GetName]\n");
    let words: Vec<&str> = tokens
        .iter()
        .filter(|token| token.kind == TokenKind::Word)
        .map(|token| token.raw.as_str())
        .collect();

    assert_eq!(
        words,
        vec!["VALUE", "[?idea_cost]", "name", "[Root.GetName]"]
    );
    assert_eq!(
        tokens
            .iter()
            .filter(|token| token.kind == TokenKind::Operator)
            .count(),
        2
    );
}

#[test]
fn a_stray_bracket_does_not_swallow_the_closing_brace() {
    let tokens = tokenize("a = { name = [Root.GetName }\n");
    let kinds: Vec<&TokenKind> = tokens.iter().map(|token| &token.kind).collect();

    assert_eq!(kinds.last(), Some(&&TokenKind::CloseBrace));
    assert_eq!(tokens[5].raw, "[Root.GetName");
}

#[test]
fn reads_quoted_strings_with_escapes() {
    let tokens = tokenize(r#"name = "say \"hi\"""#);
    assert_eq!(tokens[2].kind, TokenKind::Quoted);
    assert_eq!(tokens[2].value(), r#"say "hi""#);
}

#[test]
fn a_hash_inside_a_string_is_not_a_comment() {
    let tokens = tokenize(r#"icon = "GFX_#_odd""#);
    assert_eq!(tokens.len(), 3);
    assert_eq!(tokens[2].value(), "GFX_#_odd");
}

#[test]
fn reads_two_character_operators() {
    let tokens = tokenize("threat >= 2");
    assert_eq!(tokens[1].raw, ">=");
}

#[test]
fn spans_cover_the_original_text() {
    let source = "x = 12";
    let tokens = tokenize(source);
    assert_eq!(tokens[2].span.text(source), "12");
}

#[test]
fn quotes_only_values_that_need_it() {
    assert!(!needs_quotes("GFX_goal_generic"));
    assert!(needs_quotes("two words"));
    assert_eq!(quote(r#"a "b""#), r#""a \"b\"""#);
}

const SOURCE: &str = "focus_tree = {\n\tid = tree\n\tfocus = {\n\t\tid = alpha\n\t\tx = 1\n\t\tcost = 10\n\t}\n}\n";

/// Runs `apply` against the first `focus` block in `source` and returns the
/// rewritten file.
fn edit_focus(source: &str, apply: impl FnOnce(&mut BlockEditor<'_>)) -> String {
    let document = parse(source).expect("parses");
    let block = document
        .find("focus_tree")
        .and_then(|tree| tree.value.as_block())
        .and_then(|tree| tree.find("focus"))
        .or_else(|| document.find("focus"))
        .and_then(|focus| focus.value.as_block())
        .expect("the sample has a focus");

    let mut editor = BlockEditor::new(source, block);
    apply(&mut editor);
    apply_edits(source, editor.finish())
}

#[test]
fn replaces_an_existing_scalar() {
    let result = edit_focus(SOURCE, |editor| {
        editor.set_scalar("x", "7");
    });

    assert!(result.contains("x = 7"));
    assert!(result.contains("id = alpha"));
}

#[test]
fn inserts_a_missing_scalar_with_matching_indentation() {
    let result = edit_focus(SOURCE, |editor| {
        editor.set_scalar("y", "4");
    });

    assert!(result.contains("\n\t\ty = 4\n"), "unexpected output:\n{result}");
    assert!(result.contains("cost = 10"));
}

#[test]
fn adds_every_missing_field_rather_than_only_the_first() {
    let result = edit_focus(SOURCE, |editor| {
        editor.set_scalar("y", "4");
        editor.set_scalar("relative_position_id", "beta");
        editor.set_block("completion_reward", "add_political_power = 50");
    });

    // Each of these targets the same span before the closing brace, so all
    // three have to land in one insertion.
    assert!(result.contains("y = 4"), "missing y:\n{result}");
    assert!(
        result.contains("relative_position_id = beta"),
        "missing relative_position_id:\n{result}"
    );
    assert!(
        result.contains("completion_reward = { add_political_power = 50 }"),
        "missing completion_reward:\n{result}"
    );
    assert!(result.contains("id = alpha"));
}

#[test]
fn mixes_additions_with_replacements() {
    let result = edit_focus(SOURCE, |editor| {
        editor.set_scalar("cost", "25");
        editor.set_scalar("y", "9");
    });

    assert!(result.contains("cost = 25"));
    assert!(result.contains("y = 9"));
}

#[test]
fn removes_a_scalar_when_the_value_is_cleared() {
    let result = edit_focus(SOURCE, |editor| {
        editor.set_scalar("cost", "");
    });

    assert!(!result.contains("cost"));
    assert!(result.contains("x = 1"));
}

#[test]
fn quotes_values_that_need_it() {
    let result = edit_focus(SOURCE, |editor| {
        editor.set_scalar("id", "two words");
    });

    assert!(result.contains("id = \"two words\""));
}

#[test]
fn writes_a_multiline_block() {
    let result = edit_focus(SOURCE, |editor| {
        editor.set_block(
            "completion_reward",
            "add_political_power = 120\nadd_stability = 0.05",
        );
    });

    assert!(result.contains("completion_reward = {"));
    assert!(result.contains("\t\t\tadd_political_power = 120"));
    assert!(result.contains("\t\t\tadd_stability = 0.05"));
}

#[test]
fn removing_a_key_keeps_its_line_mates() {
    let result = edit_focus("focus = { id = alpha x = 1 y = 2 }\n", |editor| {
        editor.set_scalar("x", "");
    });

    assert!(result.contains("id = alpha"));
    assert!(result.contains("y = 2"));
    assert!(!result.contains("x = 1"));
}

#[test]
fn removing_a_key_that_owns_its_line_drops_the_line() {
    let result = edit_focus(SOURCE, |editor| {
        editor.set_scalar("x", "");
    });

    assert!(!result.contains("x = 1"));
    // No blank line is left where the assignment used to be.
    assert!(!result.contains("\n\n\t\tcost"));
}

#[test]
fn keeps_unrelated_comments_and_spacing() {
    let source = "focus = {\n\tid = alpha # keep me\n\n\t# a note\n\tx = 1\n}\n";
    let result = edit_focus(source, |editor| {
        editor.set_scalar("x", "9");
    });

    assert!(result.contains("# keep me"));
    assert!(result.contains("# a note"));
    assert!(result.contains("x = 9"));
}

#[test]
fn later_edits_do_not_shift_earlier_ones() {
    let result = edit_focus(SOURCE, |editor| {
        editor.set_scalar("id", "renamed");
        editor.set_scalar("cost", "25");
    });

    assert!(result.contains("id = renamed"));
    assert!(result.contains("cost = 25"));
}

#[test]
fn reports_unbalanced_braces() {
    // The game accepts a file that ends mid-block, so the parser closes it
    // there and reports it in `unclosed_blocks` rather than failing.
    let document = parse("focus = { id = a").expect("parses");
    assert_eq!(document.unclosed_blocks, 1);
    let focus = document.block("focus").expect("focus block");
    assert_eq!(focus.scalar("id").as_deref(), Some("a"));
}

#[test]
fn removing_the_last_field_keeps_the_lines_added_with_it() {
    let result = edit_focus("focus = {\n\tx = 1\n}\n", |editor| {
        editor.set_scalar("x", "");
        editor.set_scalar("y", "2");
    });

    assert_eq!(result, "focus = {\n\ty = 2\n}\n");
}

#[test]
fn queued_lines_become_the_one_insertion_insert_lines_makes() {
    let document = parse(SOURCE).expect("parses");
    let block = document
        .find("focus_tree")
        .and_then(|tree| tree.value.as_block())
        .and_then(|tree| tree.find("focus"))
        .and_then(|focus| focus.value.as_block())
        .expect("the sample has a focus");
    let first = "y = 4".to_string();
    let second = "z = 5".to_string();

    let mut editor = BlockEditor::new(SOURCE, block);
    editor.add_line(first.clone());
    editor.add_line(second.clone());
    let edits = editor.finish();
    let expected = insert_lines(SOURCE, block, &[first, second]);

    assert_eq!(edits.len(), 1);
    assert_eq!(edits[0].span.start, expected.span.start);
    assert_eq!(edits[0].span.end, expected.span.end);
    assert_eq!(edits[0].replacement, expected.replacement);
    assert_eq!(expected.replacement, "\n\t\ty = 4\n\t\tz = 5\n\t");
}

#[test]
fn an_edit_dropped_for_overlapping_may_run_past_the_source() {
    let edits = vec![
        TextEdit::new(Span { start: 0, end: 3 }, "X".to_string()),
        TextEdit::new(Span { start: 1, end: 100 }, "Y".to_string()),
    ];
    assert_eq!(apply_edits("abcdef", edits), "Xdef");
}

#[test]
fn an_edit_ending_before_it_starts_inserts_at_its_start() {
    let edits = vec![TextEdit::new(Span { start: 2, end: 1 }, "Z".to_string())];
    assert_eq!(apply_edits("abc", edits), "abZc");
}

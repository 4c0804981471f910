use philo_tui::app::prose::answer::project_answer;
use philo_tui::app::prose::blocks::classify;
use philo_tui::app::prose::flow::wrap_spans;
use philo_tui::app::prose::inline::{
    bake_prose, colorize, is_path_like, parse_prose, ProseEvent, ProseTag,
};
use philo_tui::app::prose::style::{BlockRole, ProjectedRow, ProseColor, ProseSpan, ProseStyle};
use philo_tui::app::prose::table::{flow_rows, waterfill};
use philo_tui::app::text;

fn roles(answer: &str) -> Vec<BlockRole> {
    classify(answer).into_iter().map(|line| line.role).collect()
}

fn texts(rows: &[ProjectedRow]) -> Vec<&str> {
    rows.iter().map(|row| row.text.as_str()).collect()
}

fn code_style() -> ProseStyle {
    ProseStyle::default().colored(ProseColor::Green)
}

#[test]
fn prose_without_blocks_stays_plain() {
    assert_eq!(
        roles("# Title\nbody text\n- item"),
        vec![BlockRole::Heading, BlockRole::Plain, BlockRole::Plain]
    );
}

#[test]
fn fences_pair_and_capture_the_language() {
    assert_eq!(
        roles("```rust\nlet x = 1;\n```"),
        [
            BlockRole::FenceEdge,
            BlockRole::FenceBody {
                lang: "rust".to_owned()
            },
            BlockRole::FenceEdge,
        ]
    );
}

#[test]
fn unknown_languages_still_classify_as_a_body() {
    assert_eq!(
        roles("```not-a-language\n* not a list *\n```"),
        [
            BlockRole::FenceEdge,
            BlockRole::FenceBody {
                lang: "not-a-language".to_owned()
            },
            BlockRole::FenceEdge,
        ]
    );
}

#[test]
fn tilde_fences_match_their_own_marker_only() {
    assert_eq!(
        roles("~~~\ntext\n```\nstill inside\n~~~"),
        [
            BlockRole::FenceEdge,
            BlockRole::FenceBody {
                lang: String::new()
            },
            BlockRole::FenceBody {
                lang: String::new()
            },
            BlockRole::FenceBody {
                lang: String::new()
            },
            BlockRole::FenceEdge,
        ]
    );
}

#[test]
fn an_unclosed_fence_runs_to_the_cell_end() {
    assert_eq!(
        roles("before\n```python\nx = 1\n# never closed"),
        [
            BlockRole::Plain,
            BlockRole::FenceEdge,
            BlockRole::FenceBody {
                lang: "python".to_owned()
            },
            BlockRole::FenceBody {
                lang: "python".to_owned()
            },
        ]
    );
}

#[test]
fn blank_lines_inside_a_fence_stay_body() {
    assert!(matches!(
        roles("```\n\n```")[1],
        BlockRole::FenceBody { .. }
    ));
}

#[test]
fn indented_fences_still_classify() {
    assert_eq!(roles("   ```sh\necho hi")[0], BlockRole::FenceEdge);
}

#[test]
fn short_marker_runs_are_prose() {
    assert_eq!(
        roles("`` inline``\n`code`"),
        vec![BlockRole::Plain, BlockRole::Plain]
    );
}

#[test]
fn pipes_inside_a_fence_are_never_a_table() {
    assert_eq!(
        roles("```\n| a | b |\n|---|---|\n```"),
        [
            BlockRole::FenceEdge,
            BlockRole::FenceBody {
                lang: String::new()
            },
            BlockRole::FenceBody {
                lang: String::new()
            },
            BlockRole::FenceEdge,
        ]
    );
}

#[test]
fn a_delimiter_row_settles_a_table() {
    assert_eq!(
        roles("| a | b |\n|---|---|\n| 1 | 2 |\n| 3 | 4 |"),
        [
            BlockRole::TableHeader,
            BlockRole::TableDelim,
            BlockRole::TableBody,
            BlockRole::TableBody,
        ]
    );
}

#[test]
fn alignment_colons_keep_the_delimiter_valid() {
    assert_eq!(
        roles("left | right\n:--- | ---:\n1 | 2")[..2],
        [BlockRole::TableHeader, BlockRole::TableDelim]
    );
}

#[test]
fn unsettled_pipe_rows_flush_to_prose() {
    assert_eq!(
        roles("| just | words |\n| more | words |"),
        vec![BlockRole::Plain, BlockRole::Plain],
        "no delimiter row means no table"
    );
}

#[test]
fn a_table_ends_at_the_first_non_pipe_row() {
    assert_eq!(
        roles("| a | b |\n|---|---|\n| 1 | 2 |\nplain again\n| 3 | 4 |"),
        [
            BlockRole::TableHeader,
            BlockRole::TableDelim,
            BlockRole::TableBody,
            BlockRole::Plain,
            BlockRole::Plain,
        ],
        "a later pipe row does not rejoin a settled table"
    );
}

#[test]
fn non_delimiter_followers_leave_the_header_candidate_plain() {
    assert_eq!(
        roles("| a | b |\nnot a delim"),
        vec![BlockRole::Plain, BlockRole::Plain]
    );
}

#[test]
fn fragments_carry_their_role_across_wraps() {
    let rows = project_answer("before\n```\n中文二 very long body line\n```", 8);
    // The one-digit number slot plus `│ ` gutter reserve 3 cells, so the
    // body wraps inside 5. A block-gap now separates `before` (plain)
    // from the fence opener (cross-category transition, GAP_BLOCK).
    assert_eq!(
        texts(&rows),
        [
            "before", "", "```", "中文", "二 ve", "ry lo", "ng bo", "dy li", "ne", "```"
        ]
    );
    for row in &rows[3..9] {
        assert_eq!(
            row.role,
            BlockRole::FenceBody {
                lang: String::new()
            },
            "every fragment of one logical line keeps the role"
        );
    }
    assert_eq!(rows[3].code_line.as_deref(), Some("1"), "head carries the number");
    for row in &rows[4..9] {
        assert_eq!(
            row.code_line.as_deref(),
            Some(" "),
            "wrapped continuations blank the number slot"
        );
    }
    assert_eq!(rows[0].role, BlockRole::Plain);
    assert_eq!(rows[1].role, BlockRole::Plain);
    assert_eq!(rows[2].role, BlockRole::FenceEdge);
}

#[test]
fn projection_preserves_blank_rows() {
    let rows = project_answer("one\n\ntwo", 20);
    assert_eq!(texts(&rows), ["one", "", "two"]);
    assert!(rows.iter().all(|row| row.spans.is_some()));
}

/// Headings classify into [`BlockRole::Heading`] (P4 block-gap
/// support) instead of staying Plain — the structural marker the gap
/// strategy keys off of, while `parse_prose` still owns the span
/// styling.
#[test]
fn atx_headings_classify_into_the_heading_role() {
    assert_eq!(roles("# H1"), vec![BlockRole::Heading]);
    assert_eq!(roles("###### Deepest"), vec![BlockRole::Heading]);
    assert_eq!(roles("####### Too many"), vec![BlockRole::Plain], "7 hashes is not a heading");
    assert_eq!(roles("no space after#hash"), vec![BlockRole::Plain]);
    // Setext and thematic breaks stay Plain (pulldown-cmark still
    // styles the heading span; we only need the structural marker).
    assert_eq!(roles("---"), vec![BlockRole::Plain]);
    // Inside a fence, a `#` line is a code body, never a heading.
    assert_eq!(
        roles("```rust\n# comment\n```"),
        [
            BlockRole::FenceEdge,
            BlockRole::FenceBody { lang: "rust".to_owned() },
            BlockRole::FenceEdge,
        ]
    );
}

/// Cross-category transitions insert one GAP_BLOCK blank row between
/// structural blocks; same-category rows stay tight. This is the
/// density fix — without it, headings, fences, and tables hugged the
/// surrounding prose.
#[test]
fn block_gap_inserts_between_structural_categories() {
    // Plain → Heading → Plain: gaps on both sides of the heading.
    let rows = project_answer("intro\n# Title\nafter", 80);
    assert_eq!(texts(&rows), ["intro", "", "▍ Title", "", "after"]);

    // Plain → Fence (and back): gaps around the fence. The fence body's
    // line-number slot rides `code_line`, not `text`, so `texts()`
    // returns just the code.
    let rows = project_answer("before\n```\nx\n```\nafter", 80);
    assert_eq!(texts(&rows), ["before", "", "```", "x", "```", "", "after"]);

    // Plain → Table (and back): gaps around the table. The table
    // projects 5 rows (top, header, sep, body, bottom).
    let rows = project_answer("lead\n| a | b |\n|---|---|\n| 1 | 2 |\ntail", 80);
    let rendered = texts(&rows);
    assert_eq!(rendered[0], "lead");
    assert_eq!(rendered[1], "", "gap before the table");
    assert_eq!(rendered[6], "╰───┴───╯", "table bottom frame");
    assert_eq!(rendered[7], "", "gap after the table");
    assert_eq!(rendered[8], "tail");
}

/// The block gap is idempotent over source blank lines: an author's
/// `\n\n` is never amplified into two blanks. The projection skips the
/// insert when the last emitted row is already blank.
#[test]
fn block_gap_is_idempotent_over_author_blank_lines() {
    // `para\n\n# H` — the author already wrote a blank line; the gap
    // strategy does not add another.
    let rows = project_answer("para\n\n# H", 80);
    assert_eq!(texts(&rows), ["para", "", "▍ H"]);

    // Two author blanks stay two blanks (the strategy never adds on
    // top of an existing blank; it does not collapse the author's
    // own spacing either — idempotence means "no amplification").
    let rows = project_answer("para\n\n\n# H", 80);
    let rendered = texts(&rows);
    let blanks = rendered.iter().filter(|r| r.is_empty()).count();
    assert_eq!(blanks, 2, "two author blanks preserved, none added: {rendered:?}");

    // Back-to-back headings share a category, so the strategy keeps
    // them tight (the gap fires on category *changes*, not between
    // same-category rows — consecutive headings stay a tight ladder).
    let rows = project_answer("# A\n# B", 80);
    let rendered = texts(&rows);
    let blanks = rendered.iter().filter(|r| r.is_empty()).count();
    assert_eq!(blanks, 0, "same-category headings stay tight: {rendered:?}");
}

// -- P2: baked spans ---------------------------------------------------

#[test]
fn styled_row_text_equals_the_concatenation_of_its_spans() {
    let rows = project_answer("plain and **bold**", 80);
    for row in rows {
        let spans = row.spans.as_ref().expect("styled");
        assert_eq!(
            row.text,
            spans.iter().map(|span| span.text.as_str()).collect::<String>()
        );
    }
}

#[test]
fn bold_context_survives_a_wrap_break() {
    let line = "aaaa **bbbbbbbbbbbbbbbb cccccccccccccccc dddddddddddd** tail";
    let rows = project_answer(line, 20);
    // The bold phrase wraps; every fragment inside it keeps the bold
    // flag, including continuations that start mid-word.
    let bold_fragments: Vec<&str> = rows
        .iter()
        .filter(|row| {
            row.spans
                .as_ref()
                .expect("styled")
                .iter()
                .any(|span| span.style.bold)
        })
        .map(|row| row.text.as_str())
        .collect();
    assert!(
        bold_fragments.len() >= 3,
        "the bold run must span several fragments: {bold_fragments:?}"
    );
    // The joined text is lossless.
    let joined: String = rows.iter().map(|row| row.text.as_str()).collect();
    assert_eq!(joined.replace('\n', ""), line.replace("**", ""));
}

#[test]
fn wrap_spans_never_splits_a_grapheme_or_style_run() {
    let spans = vec![ProseSpan::new("中文中文".to_owned(), ProseStyle::default().bold())];
    let rows = wrap_spans(&spans, 4);
    assert_eq!(rows.len(), 2);
    assert_eq!(rows[0].len(), 1, "same-style graphemes merge into one span");
    assert_eq!(rows[0][0].text, "中文");
    assert_eq!(rows[1][0].text, "中文");
    assert!(rows[0][0].style.bold && rows[1][0].style.bold);

    // Adjacent different styles stay separate even mid-row.
    let mixed = vec![ProseSpan::raw("ab"), ProseSpan::new("cd".to_owned(), code_style())];
    let rows = wrap_spans(&mixed, 10);
    assert_eq!(rows[0].len(), 2);
}

#[test]
fn fenced_bodies_stay_raw_for_syntect() {
    let rows = project_answer("```rust\nlet x = 1;\n```", 40);
    assert!(matches!(rows[0].role, BlockRole::FenceEdge));
    let body = &rows[1];
    assert!(matches!(body.role, BlockRole::FenceBody { .. }));
    assert!(body.spans.is_none(), "code bodies paint via syntect later");
    assert_eq!(body.text, "let x = 1;");
    assert_eq!(body.code_line.as_deref(), Some("1"));
}

#[test]
fn a_settled_table_grids_on_its_widest_content() {
    let table = "| plan | latency |\n|---|---|\n| fast | 2ms |";
    let rows = project_answer(table, 80);
    assert_eq!(rows.len(), 5, "top, header, separator, body, bottom");

    // Widths are the max over every cell: 4 and 7. Every line — frames
    // included (segments span column + padding) — is 18 cells wide.
    for row in &rows {
        assert_eq!(text::width(&row.text), 18, "{}", row.text);
    }
    assert_eq!(rows[0].text, "╭──────┬─────────╮");
    assert_eq!(rows[1].text, "│ plan │ latency │");
    assert_eq!(rows[2].text, "├──────┼─────────┤");
    assert_eq!(rows[3].text, "│ fast │ 2ms     │");
    assert_eq!(rows[4].text, "╰──────┴─────────╯");

    // Header content rides bold accent; bars and frames ride BORDER.
    let header = rows[1].spans.as_ref().expect("styled");
    assert!(header[0].style.color == ProseColor::Border, "bar is the frame token");
    assert!(header[1].style.bold && header[1].style.color == ProseColor::Accent);
    let frame = rows[2].spans.as_ref().expect("styled");
    assert!(frame.iter().all(|span| span.style.color == ProseColor::Border));
}

#[test]
fn body_content_widens_the_grid_instead_of_crushing() {
    // The old header-only rule wrapped "index.html" inside a 4-cell
    // column; now the body cell widens its column and nothing wraps.
    let table = "| 文件 | 说明 |\n|---|---|\n| index.html | 页面结构 |";
    let rows = project_answer(table, 80);
    assert_eq!(rows.len(), 5, "every cell fits its column — one line each");
    assert_eq!(rows[0].text, "╭────────────┬──────────╮");
    assert_eq!(rows[1].text, "│ 文件       │ 说明     │");
    assert_eq!(rows[2].text, "├────────────┼──────────┤");
    assert_eq!(rows[3].text, "│ index.html │ 页面结构 │");
    assert_eq!(rows[4].text, "╰────────────┴──────────╯");
    for row in &rows {
        assert_eq!(text::width(&row.text), 25, "{}", row.text);
    }
}

#[test]
fn cjk_cells_measure_in_terminal_cells() {
    let table = "| 名前 | 値 |\n|---|---|\n| 中文値 | 1 |";
    let rows = project_answer(table, 80);
    // Natural widths: 中文値=6, 値=2 → the body widens column one.
    assert_eq!(rows.len(), 5, "no wrap: columns fit their widest cell");
    for row in &rows {
        assert_eq!(text::width(&row.text), 15, "{}", row.text);
    }
    assert_eq!(rows[0].text, "╭────────┬────╮");
    assert_eq!(rows[1].text, "│ 名前   │ 値 │");
    assert_eq!(rows[3].text, "│ 中文値 │ 1  │");
    assert_eq!(rows[4].text, "╰────────┴────╯");
}

#[test]
fn a_tall_cell_wraps_inside_its_column_and_blanks_its_neighbours() {
    let table = "| col | b |\n|---|---|\n| one two three | x |";
    // Natural widths 13+1=14 fit budget 73 at width 80 — no wrap.
    let wide = project_answer(table, 80);
    assert_eq!(wide.len(), 5);
    assert_eq!(wide[3].text, "│ one two three │ x │");

    // At width 20 the budget is 13 < 14: the wide column squeezes to 6
    // and its cell wraps at word boundaries inside the column; the
    // narrow one stays intact.
    let rows = project_answer(table, 20);
    assert_eq!(rows.len(), 7, "two frames + header + separator + three grid lines");
    assert_eq!(rows[0].text, "╭────────┬───╮");
    assert_eq!(rows[1].text, "│ col    │ b │");
    assert_eq!(rows[2].text, "├────────┼───┤");
    assert_eq!(rows[3].text, "│ one    │ x │");
    assert_eq!(rows[4].text, "│ two    │   │");
    assert_eq!(rows[5].text, "│ three  │   │");
    assert_eq!(rows[6].text, "╰────────┴───╯");
    assert!(matches!(rows[5].role, BlockRole::TableBody));
    assert!(matches!(rows[0].role, BlockRole::TableDelim));
}

#[test]
fn excess_cells_drop_and_missing_cells_pad_per_gfm() {
    let table = "| name | qty |\n|---|---|\n| xy | 9 | extra |\n| abcdefghij |";
    let rows = project_answer(table, 80);
    // Natural widths: name=10 (abcdefghij), qty=3.
    assert_eq!(rows[0].text, "╭────────────┬─────╮");
    assert_eq!(rows[1].text, "│ name       │ qty │");
    assert_eq!(rows[3].text, "│ xy         │ 9   │", "excess cell dropped");
    assert_eq!(rows[4].text, "│ abcdefghij │     │", "missing cell pads blank");
    assert_eq!(rows[5].text, "╰────────────┴─────╯");
}

#[test]
fn alignment_colons_are_absorbed_by_the_delimiter_render() {
    let table = "left | right\n:--- | ---:\n1 | 2";
    let rows = project_answer(table, 80);
    assert_eq!(rows[0].text, "╭──────┬───────╮");
    assert_eq!(rows[2].text, "├──────┼───────┤");
}

#[test]
fn an_oversized_table_squeezes_before_it_flows() {
    let wide_cell = "x".repeat(30);
    let table = format!("| {wide_cell} | b |\n|---|---|\n| 1 | 2 |");
    // Budget 24-7 = 17 < natural 31: the wide column squeezes to 8 and
    // wraps; the table still grids — no premature flow degradation.
    let rows = project_answer(&table, 24);
    assert!(rows[0].text.starts_with('╭'));
    assert!(rows.iter().any(|row| row.text.contains('│')));
    assert!(rows.iter().any(|row| row.text.starts_with('╰')));
    let joined: String = rows.iter().map(|row| row.text.as_str()).collect();
    assert_eq!(
        joined.chars().filter(|ch| *ch == 'x').count(),
        30,
        "every x survives the in-column wrap"
    );

    let header_spans = rows[1].spans.as_ref().expect("styled");
    assert!(
        header_spans
            .iter()
            .any(|span| span.style.bold && span.style.color == ProseColor::Accent)
    );

    // Below one cell per column (width < 4N+1 = 9) the whole run
    // degrades to the dim pipe flow, frames included.
    let flowed = project_answer(&table, 8);
    assert!(flowed.iter().all(|row| !row.text.contains('╭')));
    assert!(flowed.iter().all(|row| !row.text.contains('│')));
    let joined: String = flowed.iter().map(|row| row.text.as_str()).collect();
    assert!(joined.contains('|') && joined.contains(&wide_cell));
    let flow_spans = flowed[0].spans.as_ref().expect("styled");
    assert!(
        flow_spans
            .iter()
            .any(|span| span.text == "|" && span.style.color == ProseColor::Border)
    );
}

#[test]
fn flow_rows_preserve_the_exact_source_text() {
    let source = "| a | bbb |";
    let role = BlockRole::TableBody;
    let rows = flow_rows(source, 8, &role);
    let joined: String = rows.iter().map(|row| row.text.as_str()).collect();
    // Word wrapping may relocate a break space to a row end, but every
    // source character must survive.
    let mut source_chars: Vec<char> = source.chars().collect();
    let mut joined_chars: Vec<char> = joined.chars().collect();
    source_chars.sort_unstable();
    joined_chars.sort_unstable();
    assert_eq!(joined_chars, source_chars);
}
#[test]
fn path_probe_accepts_only_separator_plus_extension_tokens() {
    assert!(is_path_like("src/utils/jwt.ts"));
    assert!(is_path_like("C:\\x\\y.rs"));
    assert!(is_path_like("src/a.ts."), "trailing punctuation trims off");
    assert!(is_path_like("(src/a.ts)"));
    assert!(!is_path_like("config.yaml"), "no separator");
    assert!(!is_path_like("src/utils/"), "no extension");
    assert!(!is_path_like("https://example.com/a.ts"), "URLs never flag");
    assert!(!is_path_like("http://x/y"), "URLs never flag");
    assert!(!is_path_like("plain"), "ordinary words stay put");
    assert!(!is_path_like("src/a."), "empty extension");
    assert!(!is_path_like(""), "empty token");
}

#[test]
fn colorize_lifts_bare_paths_but_not_inline_code_or_links() {
    let default = ProseStyle::default();
    let spans = colorize("from src/utils/jwt.ts extract", default);
    let texts: Vec<&str> = spans.iter().map(|span| span.text.as_str()).collect();
    assert_eq!(texts, ["from ", "src/utils/jwt.ts", " ", "extract"]);
    assert_eq!(spans[1].style.color, ProseColor::Green);
    assert_eq!(spans[3].style.color, ProseColor::Default);

    let code = colorize("use `src/a.ts` now", default.colored(ProseColor::Code));
    assert_eq!(code.len(), 1, "inline code keeps one span");
    assert_eq!(code[0].style.color, ProseColor::Code);

    let link = colorize("see src/a.ts", default.colored(ProseColor::Link));
    assert_eq!(link.len(), 1, "link text is never re-colored");
    assert_eq!(link[0].style.color, ProseColor::Link);
}

#[test]
fn inline_code_rides_uniform_green_everywhere() {
    // Every backtick fragment paints helper green — paths, commands,
    // identifiers, single or clustered, no density rationing.
    let spans = parse_prose("edit `src/utils/jwt.ts` then run `npm test` and `fast_path` ok");
    for name in ["src/utils/jwt.ts", "npm test", "fast_path"] {
        assert_eq!(
            spans
                .iter()
                .find(|span| span.text == name)
                .unwrap_or_else(|| panic!("{name} span"))
                .style
                .color,
            ProseColor::Green,
            "`{name}` rides the uniform green"
        );
    }
    // Multiple chips on one line: all stay green (the carpet rule is
    // retired with the orange chip).
    for name in ["a/b.rs", "c/d.rs"] {
        assert!(parse_prose(&format!("touch `{name}` files"))
            .iter()
            .any(|span| span.text == name && span.style.color == ProseColor::Green));
    }
    // Code chips on structural rows keep their green too; markers are
    // untouched chrome.
    let list = parse_prose("- `Viewport::FullScreen` ⇔ 备用屏幕");
    assert!(
        list.iter().any(|span| span.text == "• " && span.style.bold),
        "the bullet marker survives"
    );
    assert_eq!(
        list.iter()
            .find(|span| span.text == "Viewport::FullScreen")
            .expect("code chip")
            .style
            .color,
        ProseColor::Green
    );
    let heading = parse_prose("# `ratatui` 框架知识");
    assert_eq!(
        heading
            .iter()
            .find(|span| span.text == "ratatui")
            .expect("heading chip")
            .style
            .color,
        ProseColor::Green
    );
}

#[test]
fn multi_digit_slots_pad_to_the_widest_number_in_the_fence() {
    let code = "fn one() {}\nfn two() {}\nfn three() {}\nfn four() {}\nfn five() {}\nfn six() {}\nfn seven() {}\nfn eight() {}\nfn nine() {}\nfn ten() {}";
    let rows = project_answer(&format!("```rust\n{code}\n```"), 80);
    let heads: Vec<Option<&str>> = rows
        .iter()
        .filter(|row| matches!(row.role, BlockRole::FenceBody { .. }))
        .map(|row| row.code_line.as_deref())
        .collect();
    assert_eq!(
        heads,
        [
            Some(" 1"),
            Some(" 2"),
            Some(" 3"),
            Some(" 4"),
            Some(" 5"),
            Some(" 6"),
            Some(" 7"),
            Some(" 8"),
            Some(" 9"),
            Some("10"),
        ]
    );
    assert!(heads.iter().all(|slot| slot.is_some()));
}

#[test]
fn bold_words_lift_to_white_inside_body_text() {
    let rows = project_answer("plain **word** tail", 80);
    let spans = rows[0].spans.as_ref().expect("styled");
    let bold = spans
        .iter()
        .find(|span| span.text == "word" && span.style.bold)
        .expect("the strong span");
    assert_eq!(bold.style.color, ProseColor::White);
    let plain = spans
        .iter()
        .find(|span| span.text.contains("plain"))
        .expect("body span");
    assert_eq!(plain.style.color, ProseColor::Default);
}

#[test]
fn quote_bar_rides_dark_gray_and_headers_step_white() {
    let rows = project_answer("> quoted\n## Sub", 80);
    // Plain→Heading opens a block gap, so `## Sub` lands at row 2 (the
    // inserted blank rides GAP_BLOCK).
    let quote_spans = rows[0].spans.as_ref().expect("styled");
    assert_eq!(quote_spans[0].style.color, ProseColor::DarkGray);
    assert_eq!(rows[1].text, "");
    let sub_spans = rows[2].spans.as_ref().expect("styled");
    assert!(sub_spans[0].style.bold);
    assert_eq!(sub_spans[0].style.color, ProseColor::White, "H2 is bold white");
}

#[test]
fn probe_wrap_debug() {
    let line = "aaaa **bbbbbbbbbbbbbbbb cccccccccccccccc dddddddddddd** tail";
    for (i, row) in project_answer(line, 20).iter().enumerate() {
        println!("row{i}: {:?}", row.text);
    }
}

#[test]
fn a_squeezed_row_of_columns_takes_from_the_widest() {
    assert_eq!(waterfill(&vec![4, 7], 20), [4, 7]);
    let squeezed = waterfill(&vec![13, 1], 13);
    assert!(squeezed.iter().sum::<usize>() <= 13);
    assert_eq!(squeezed[1], 1);
}

#[test]
fn baking_given_events_styles_them() {
    let events = vec![
        ProseEvent::Open(ProseTag::Strong),
        ProseEvent::Text("hard".to_owned()),
        ProseEvent::Close(ProseTag::Strong),
        ProseEvent::Text(" soft".to_owned()),
    ];
    let spans = bake_prose(&events, "**hard** soft");
    assert_eq!(spans[0].text, "hard");
    assert!(spans[0].style.bold);
    assert!(spans.iter().skip(1).all(|span| !span.style.bold));
}

fn wrapped_texts(text: &str, width: usize) -> Vec<String> {
    wrap_spans(&vec![ProseSpan::raw(text)], width)
        .iter()
        .map(|row| row.iter().map(|span| span.text.as_str()).collect())
        .collect()
}

#[test]
fn a_word_carried_over_still_leaves_room() {
    assert_eq!(wrapped_texts("a b\u{17d8}", 3), ["a ", "b", "\u{17d8}"]);
    assert_eq!(wrapped_texts("\u{200b} b中", 2), ["\u{200b} ", "b", "中"]);
    assert_eq!(wrapped_texts("ab cd ef", 5), ["ab ", "cd ef"]);
    assert_eq!(wrapped_texts("中文中", 4), ["中文", "中"]);
}

#[test]
fn wrapping_keeps_each_character_in_its_style() {
    let bold = ProseStyle::default().bold();
    let spans = vec![
        ProseSpan::raw("one tw"),
        ProseSpan::new("o three".to_owned(), bold),
        ProseSpan::raw(" four"),
    ];
    let rows = wrap_spans(&spans, 6);
    let styled = |spans: &[ProseSpan]| -> Vec<(char, bool)> {
        spans.iter().flat_map(|s| s.text.chars().map(|c| (c, s.style.bold))).collect()
    };
    let joined: Vec<(char, bool)> = rows.iter().flat_map(|row| styled(row)).collect();
    assert_eq!(joined, styled(&spans));
    let texts: Vec<String> =
        rows.iter().map(|row| row.iter().map(|span| span.text.as_str()).collect()).collect();
    assert_eq!(texts, ["one ", "two ", "three ", "four"]);
}

#[test]
fn a_blank_line_behind_a_block_is_not_amplified() {
    let shown = |text: &str| -> Vec<String> {
        project_answer(text, 80).into_iter().map(|row| row.text).collect()
    };
    assert_eq!(shown("# H\n\npara"), ["▍ H", "", "para"]);
    assert_eq!(shown("# H\n\n\npara"), ["▍ H", "", "", "para"]);
    assert_eq!(shown("```\nx\n```\n\n# H"), ["```", "x", "```", "", "▍ H"]);
}

#[test]
fn a_carried_word_is_measured_as_a_whole() {
    // Lam and alef join to one cell once they stand in one piece.
    assert_eq!(wrapped_texts("a لاbcde", 4), ["a ", "لاbcd", "e"]);
}

#[test]
fn strikethrough_and_tasks_are_read() {
    let rows = project_answer("~~gone~~", 40);
    assert_eq!(rows[0].text, "gone");
    assert!(rows[0].spans.as_ref().expect("spans").iter().any(|span| span.style.crossed));
    let rows = project_answer("- [x] done", 40);
    let spans = rows[0].spans.as_ref().expect("spans");
    let mark = spans.iter().find(|span| span.text.starts_with("[x]")).expect("the task's mark");
    assert_ne!(mark.style, ProseStyle::default(), "a mark, not plain text");
}

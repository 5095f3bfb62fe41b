use todotxt::date::Date;
use todotxt::editor::{Editor, Key, KeyCode, Mode};
use todotxt::store::Store;
use todotxt::todo::Todo;
use todotxt::tui::{App, Focus, Group, Popup, Target};
use todotxt::view::{
    Colour, Look, Piece, empty_list_message, field, header, list_screen, panel, popup_title, priority_look, status,
};
use todotxt::view;

const TODAY: Date = Date { year: 2026, month: 9, day: 26 };

fn look(fg: Colour, bold: bool, dim: bool) -> Look {
    Look { fg, bg: Colour::Reset, bold, dim, reversed: false }
}

fn plain() -> Look {
    look(Colour::Reset, false, false)
}

fn text(pieces: &[Piece]) -> String {
    pieces.iter().map(|p| p.text.as_str()).collect()
}

fn style_of(line_text: &str, token: &str) -> Look {
    let row = view::line(1, &Todo::from_line(line_text));
    row.iter().find(|piece| piece.text == token).expect(token).look
}

fn app_of(lines: &[&str]) -> App {
    App::new(Store::new(lines.iter().map(|l| Todo::from_line(l)).collect()))
}

#[test]
fn a_pending_line_keeps_its_text_and_styles_priority_date_projects_and_contexts() {
    let line_text = "(A) 2026-09-26 Call  +bank @phone due:2026-10-01 a+b + @";

    assert_eq!(text(&view::line(12, &Todo::from_line(line_text))), format!(" 12  {line_text}"));
    assert_eq!(style_of(line_text, "(A)"), look(Colour::Yellow, true, false));
    assert_eq!(style_of(line_text, "2026-09-26"), look(Colour::Reset, false, true));
    assert_eq!(style_of(line_text, "+bank"), look(Colour::Magenta, false, false));
    assert_eq!(style_of(line_text, "@phone"), look(Colour::Cyan, false, false));
    for word in ["Call", "due:2026-10-01", "a+b", "+", "@"] {
        assert_eq!(style_of(line_text, word), plain(), "{word}");
    }
    assert_eq!(style_of("(B) x", "(B)"), look(Colour::Green, true, false));
    assert_eq!(style_of("(C) x", "(C)"), look(Colour::Blue, true, false));
    assert_eq!(style_of("(D) x", "(D)"), look(Colour::Reset, true, false));
}

#[test]
fn a_done_line_is_dimmed_all_through() {
    let row = view::line(3, &Todo::from_line("x 2026-09-26 2026-09-20 Call +bank @phone"));

    assert_eq!(text(&row), "  3  x 2026-09-26 2026-09-20 Call +bank @phone");
    assert!(row.iter().all(|piece| piece.look == look(Colour::Reset, false, true)));
}

#[test]
fn a_number_wider_than_three_characters_is_written_whole() {
    assert_eq!(text(&view::line(1234, &Todo::from_line("Pay rent"))), "1234  Pay rent");
}

#[test]
fn a_priority_is_tinted_for_a_to_c_only() {
    assert_eq!(priority_look('A').fg, Colour::Yellow);
    assert_eq!(priority_look('E'), look(Colour::Reset, true, false));
}

#[test]
fn a_header_holds_its_count_title_and_a_rule_filling_the_row() {
    let h = header(Group::Priority('A'), 1, false, 28);
    assert_eq!(text(&h), format!(" (1)  PRIORITY A  {}", "\u{2500}".repeat(10)));
    assert_eq!(h[2].look, look(Colour::Yellow, true, false));

    let folded = header(Group::Unprioritised, 12, true, 30);
    assert_eq!(text(&folded), format!(" (12)  NO PRIORITY  {} \u{25b8}", "\u{2500}".repeat(8)));
    assert_eq!(folded[2].look, look(Colour::Reset, true, true));

    assert_eq!(text(&header(Group::Done, 3, false, 5)), " (3)  DONE  ");
}

#[test]
fn the_panel_puts_projects_and_contexts_under_their_headers_and_marks_the_active_entry() {
    let app = app_of(&["Pay +rent", "Call +bank @phone"]);

    let (rows, active) = panel(&app);
    let texts: Vec<String> = rows.iter().map(|r| text(r)).collect();

    assert_eq!(
        texts,
        [
            "\u{25b8} all             2",
            "",
            " PROJECTS",
            "  +bank           1",
            "  +rent           1",
            "",
            " CONTEXTS",
            "  @phone          1",
        ]
    );
    assert_eq!(active, Some(0));
    assert_eq!(rows[2][0].look, look(Colour::Magenta, true, false));
    assert_eq!(rows[3][1].look, look(Colour::Magenta, false, false));
    assert_eq!(rows[7][1].look, look(Colour::Cyan, false, false));
    assert_eq!(rows[0][1].look, look(Colour::Reset, true, false));
    assert!(rows[3][3].look.dim);
}

#[test]
fn the_panel_marks_the_filter_and_drops_an_empty_section() {
    let mut app = app_of(&["Pay +rent", "Call +bank"]);
    app.filter = Some("+rent".to_string());
    let (rows, active) = panel(&app);
    assert_eq!(active, Some(4));
    assert!(text(&rows[4]).starts_with("\u{25b8} +rent "));
    assert!(text(&rows[0]).starts_with("  all "));

    let (rows, _) = panel(&app_of(&["Call @phone"]));
    assert_eq!(text(&rows[2]), " CONTEXTS");
    assert!(!rows.iter().any(|r| text(r).contains("PROJECTS")));
}

#[test]
fn a_long_panel_entry_is_cut_to_thirteen_characters() {
    let (rows, _) = panel(&app_of(&["Read +averyveryverylongproject"]));
    assert_eq!(text(&rows[3]), "  +averyveryver   1");
}

#[test]
fn the_status_bar_shows_the_mode_and_filters_left_and_the_message_right() {
    let mut app = app_of(&["Pay +rent"]);
    app.filter = Some("+rent".to_string());
    app.search = "pay".to_string();
    app.show_done = true;
    app.message = Some("reloaded".to_string());

    let (left, message) = status(&app, 50);
    assert_eq!(text(&left), " LIST  +rent  /pay  +done");
    assert_eq!(message.as_deref(), Some("reloaded "));
    assert_eq!(left[0].look, Look { fg: Colour::Black, bg: Colour::Blue, bold: true, dim: false, reversed: false });
}

#[test]
fn the_mode_keys_follow_when_they_fit_whole_and_no_message_is_shown() {
    let mut app = app_of(&["Pay +rent"]);
    app.focus = Focus::Panel;

    let (left, _) = status(&app, 50);
    assert_eq!(text(&left), " PANEL  j/k filter \u{b7} esc all \u{b7} tab back");
    assert_eq!(left[0].look.bg, Colour::Magenta);
    let (narrow, _) = status(&app, 20);
    assert_eq!(text(&narrow), " PANEL  ");

    app.message = Some("reloaded".to_string());
    assert!(!text(&status(&app, 80).0).contains("j/k"));

    app.focus = Focus::List;
    app.message = None;
    assert_eq!(text(&status(&app, 50).0).trim_end(), " LIST");
    assert!(text(&status(&app, 100).0).ends_with("/ search \u{b7} ? help"));

    app.focus = Focus::Search;
    app.message = None;
    app.search = "ca".to_string();
    let (left, _) = status(&app, 50);
    assert_eq!(text(&left), " SEARCH  /ca\u{258c}  \u{23ce} keep \u{b7} esc clear");
    assert_eq!(left[0].look.bg, Colour::Yellow);
}

#[test]
fn the_popup_shows_its_mode_and_its_title() {
    let mut app = app_of(&["Pay +rent"]);
    app.filter = Some("+rent".to_string());
    app.focus = Focus::Popup(Popup { editor: Editor::new("Call".to_string(), Mode::Insert), target: Target::Add });

    let (left, _) = status(&app, 80);
    assert!(text(&left).starts_with(" INSERT "));
    assert_eq!(left[0].look.bg, Colour::Green);
    assert_eq!(popup_title(Target::Add, &app.filter), " add (+rent) ");
    assert_eq!(popup_title(Target::Add, &None), " add ");
    assert_eq!(popup_title(Target::Edit(12), &None), " edit 12 ");

    app.handle_key(Key::new(KeyCode::Esc), TODAY);
    let (left, _) = status(&app, 80);
    assert!(text(&left).starts_with(" NORMAL "));
    assert_eq!(left[0].look.bg, Colour::Blue);
}

#[test]
fn the_field_shows_the_cursor_cell_reversed() {
    let mut editor = Editor::new("Call the bank".to_string(), Mode::Insert);
    editor.cursor = 5;
    let pieces = field(&editor);
    assert_eq!(
        pieces.iter().map(|p| p.text.as_str()).collect::<Vec<_>>(),
        ["Call ", "t", "he bank"]
    );
    assert!(pieces[1].look.reversed && !pieces[0].look.reversed);

    editor.cursor = 13;
    let pieces = field(&editor);
    assert_eq!(pieces.iter().map(|p| p.text.as_str()).collect::<Vec<_>>(), ["Call the bank", " ", ""]);
}

#[test]
fn group_headers_sit_above_their_tasks_with_the_cursor_on_the_same_task() {
    let mut app = app_of(&["c", "(B) b", "(A) a"]);
    app.cursor = 1;

    let (lines, rows) = list_screen(&app, 28);
    let texts: Vec<String> = lines.iter().map(|l| text(l)).collect();

    assert_eq!(
        texts,
        [
            format!(" (1)  PRIORITY A  {}", "\u{2500}".repeat(10)),
            "  3  (A) a".to_string(),
            format!(" (1)  PRIORITY B  {}", "\u{2500}".repeat(10)),
            "  2  (B) b".to_string(),
            format!(" (1)  NO PRIORITY  {}", "\u{2500}".repeat(9)),
            "  1  c".to_string(),
        ]
    );
    assert_eq!(rows, [1, 3, 5]);
    assert_eq!(rows[app.cursor], 3);
}

#[test]
fn a_folded_group_is_its_header_alone_ended_by_a_marker() {
    let mut app = app_of(&["(A) a", "(A) b", "(B) c", "d"]);
    app.folded = vec![Group::Priority('A'), Group::Priority('B'), Group::Unprioritised];

    let (lines, rows) = list_screen(&app, 28);
    let texts: Vec<String> = lines.iter().map(|l| text(l)).collect();

    assert_eq!(
        texts,
        [
            format!(" (2)  PRIORITY A  {} \u{25b8}", "\u{2500}".repeat(8)),
            format!(" (1)  PRIORITY B  {} \u{25b8}", "\u{2500}".repeat(8)),
            format!(" (1)  NO PRIORITY  {} \u{25b8}", "\u{2500}".repeat(7)),
        ]
    );
    assert_eq!(rows, [0, 1, 2]);
}

#[test]
fn an_ungrouped_list_is_its_tasks_alone() {
    let app = app_of(&["one", "two"]);
    let (lines, rows) = list_screen(&app, 28);
    assert_eq!(lines.iter().map(|l| text(l)).collect::<Vec<_>>(), ["  1  one", "  2  two"]);
    assert_eq!(rows, [0, 1]);
}

#[test]
fn an_empty_list_says_why() {
    let mut app = app_of(&[]);
    assert_eq!(empty_list_message(&app), "nothing to do");
    app.search = "x".to_string();
    assert_eq!(empty_list_message(&app), "no matching task");
}

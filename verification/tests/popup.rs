use bookmarks::{Action, BMPopup, Bookmarks, Coordinates, HError, Key, Mode, WidgetCore, SENTINEL};

fn popup_with(content: &str) -> BMPopup {
    BMPopup::new(&WidgetCore::new(20, 24), Ok(content.to_string()))
}

#[test]
fn add_then_key_registers_bookmark() {
    let mut popup = popup_with("a\n/home/x\n");
    popup.add("/var");
    assert_eq!(popup.mode(), Mode::Add);
    assert_eq!(
        popup.on_key(Key::Char('z')),
        Ok(Action::Write("a\n/home/x\nz\n/var\n".to_string()))
    );
    assert_eq!(popup.written(Ok(())), Ok(Action::Finished));
    assert_eq!(popup.bookmarks().len(), 2);
    assert_eq!(popup.bookmarks().get('a'), Ok(&"/home/x".to_string()));
    assert_eq!(popup.bookmarks().get('z'), Ok(&"/var".to_string()));
    assert_eq!(popup.added(), Ok(()));
    assert_eq!(popup.mode(), Mode::Pick);
}

#[test]
fn pick_then_bookmark_key_selects_its_path() {
    let mut popup = popup_with("a\n/home/x\n");
    popup.pick("/cwd".to_string());
    assert_eq!(popup.on_key(Key::Char('a')), Ok(Action::Finished));
    assert_eq!(popup.picked(), Ok("/home/x".to_string()));
}

#[test]
fn pick_then_sentinel_accepts_the_offered_path() {
    let mut popup = popup_with("a\n/home/x\n");
    popup.pick("/cwd".to_string());
    assert_eq!(popup.on_key(Key::Char(SENTINEL)), Ok(Action::Finished));
    assert_eq!(popup.picked(), Ok("/cwd".to_string()));
}

#[test]
fn alt_key_deletes_in_memory_only() {
    let mut popup = popup_with("a\n/home/x\nb\n/tmp\n");
    popup.pick("/cwd".to_string());
    assert_eq!(popup.on_key(Key::Alt('a')), Ok(Action::Continue));
    assert_eq!(popup.bookmarks().get('a'), Err(HError::NotFound));
    assert_eq!(popup.bookmarks().get('b'), Ok(&"/tmp".to_string()));
    assert_eq!(popup.bookmarks().len(), 1);
    assert_eq!(popup.mode(), Mode::Pick);
    // The deleted key is no bookmark any more: the overlay stays open.
    assert_eq!(popup.on_key(Key::Char('a')), Ok(Action::Continue));
    assert_eq!(popup.on_key(Key::Char(SENTINEL)), Ok(Action::Finished));
    assert_eq!(popup.picked(), Ok("/cwd".to_string()));
    // Only the next registration asks for the file to be written, and then
    // without the deleted bookmark.
    popup.add("/var");
    assert_eq!(popup.on_key(Key::Char('z')), Ok(Action::Write("b\n/tmp\nz\n/var\n".to_string())));
}

#[test]
fn alt_key_without_bookmark_changes_nothing() {
    let mut popup = popup_with("a\n/home/x\n");
    popup.add("/var");
    assert_eq!(popup.on_key(Key::Alt('q')), Ok(Action::Continue));
    assert_eq!(popup.bookmarks().save(), "a\n/home/x\n");
    assert_eq!(popup.mode(), Mode::Add);
    assert_eq!(popup.on_key(Key::Alt('a')), Ok(Action::Continue));
    assert_eq!(popup.bookmarks().len(), 0);
    assert_eq!(popup.mode(), Mode::Add);
}

#[test]
fn control_c_cancels_pick() {
    let mut popup = popup_with("a\n/home/x\n");
    popup.pick("/cwd".to_string());
    assert_eq!(popup.on_key(Key::Ctrl('c')), Ok(Action::Finished));
    assert_eq!(popup.picked(), Err(HError::Cancelled));
}

#[test]
fn control_c_cancels_add() {
    let mut popup = popup_with("a\n/home/x\n");
    popup.add("/var");
    assert_eq!(popup.on_key(Key::Ctrl('c')), Ok(Action::Finished));
    assert_eq!(popup.added(), Err(HError::Cancelled));
    assert_eq!(popup.bookmarks().save(), "a\n/home/x\n");
    assert_eq!(popup.mode(), Mode::Pick);
}

#[test]
fn sentinel_cancels_add() {
    let mut popup = popup_with("a\n/home/x\n");
    popup.add("/var");
    assert_eq!(popup.on_key(Key::Char('`')), Ok(Action::Finished));
    assert_eq!(popup.added(), Err(HError::Cancelled));
    assert_eq!(popup.bookmarks().get('`'), Err(HError::NotFound));
    // The path of the cancelled registration is not offered again.
    assert_eq!(popup.picked(), Err(HError::Cancelled));
}

#[test]
fn unknown_key_keeps_pick_open() {
    let mut popup = popup_with("a\n/home/x\n");
    popup.pick("/cwd".to_string());
    assert_eq!(popup.on_key(Key::Char('q')), Ok(Action::Continue));
    assert_eq!(popup.on_key(Key::Char('a')), Ok(Action::Finished));
    assert_eq!(popup.picked(), Ok("/home/x".to_string()));
}

#[test]
fn other_keys_are_ignored() {
    let mut popup = popup_with("a\n/home/x\n");
    popup.pick("/cwd".to_string());
    assert_eq!(popup.on_key(Key::Other), Ok(Action::Continue));
    assert_eq!(popup.on_key(Key::Ctrl('a')), Ok(Action::Continue));
    assert_eq!(popup.on_key(Key::Ctrl('`')), Ok(Action::Continue));
    assert_eq!(popup.bookmarks().save(), "a\n/home/x\n");
    assert_eq!(popup.picked(), Ok("/cwd".to_string()));
    popup.add("/var");
    assert_eq!(popup.on_key(Key::Other), Ok(Action::Continue));
    assert_eq!(popup.on_key(Key::Ctrl('z')), Ok(Action::Continue));
    assert_eq!(popup.mode(), Mode::Add);
    assert_eq!(popup.on_key(Key::Char('z')), Ok(Action::Write("a\n/home/x\nz\n/var\n".to_string())));
}

#[test]
fn add_overwrites_an_existing_key() {
    let mut popup = popup_with("a\n/home/x\nb\n/tmp\n");
    popup.add("/var");
    assert_eq!(popup.on_key(Key::Char('a')), Ok(Action::Write("a\n/var\nb\n/tmp\n".to_string())));
    assert_eq!(popup.written(Ok(())), Ok(Action::Finished));
    assert_eq!(popup.added(), Ok(()));
    assert_eq!(popup.bookmarks().len(), 2);
}

#[test]
fn write_failure_is_handed_on() {
    let mut popup = popup_with("a\n/home/x\n");
    popup.add("/var");
    assert_eq!(popup.on_key(Key::Char('z')), Ok(Action::Write("a\n/home/x\nz\n/var\n".to_string())));
    assert_eq!(popup.written(Err(HError::IoError)), Err(HError::IoError));
    // The bookmark stays in memory, the registration is not complete and
    // its path is used up.
    assert_eq!(popup.bookmarks().get('z'), Ok(&"/var".to_string()));
    assert_eq!(popup.mode(), Mode::Add);
    assert_eq!(popup.on_key(Key::Char('y')), Err(HError::NotFound));
    assert_eq!(popup.bookmarks().get('y'), Err(HError::NotFound));
    assert_eq!(popup.added(), Err(HError::Cancelled));
}

#[test]
fn new_popup_holds_the_bookmarks_of_the_file() {
    let core = WidgetCore::new(80, 24);
    let popup = BMPopup::new(&core, Ok("a\n/home/x\nb\n/tmp\n".to_string()));
    assert_eq!(popup.bookmarks(), &Bookmarks::new(Ok("b\n/tmp\na\n/home/x\n".to_string())));
    assert_eq!(popup.get_core(), &core);
    assert_eq!(popup.mode(), Mode::Pick);
    let mut popup = BMPopup::new(&core, Err(HError::IoError));
    assert_eq!(popup.bookmarks().len(), 0);
    assert_eq!(popup.picked(), Err(HError::Cancelled));
}

#[test]
fn refresh_places_overlay_at_the_bottom() {
    let mut popup = BMPopup::new(&WidgetCore::new(80, 24), Ok("a\n/1\nb\n/2\nc\n/3\n".to_string()));
    assert!(popup.fits_terminal());
    popup.refresh();
    let expected = Coordinates { xsize: 80, ysize: 4, xpos: 1, ypos: 20 };
    assert_eq!(popup.get_core().coordinates, expected);
    assert_eq!(popup.get_core().term_xsize, 80);
    assert_eq!(popup.get_core().term_ysize, 24);
}

#[test]
fn pick_and_add_place_the_overlay() {
    let mut popup = BMPopup::new(&WidgetCore::new(100, 50), Ok("a\n/1\n".to_string()));
    popup.pick("/cwd".to_string());
    let expected = Coordinates { xsize: 100, ysize: 2, xpos: 1, ypos: 48 };
    assert_eq!(popup.get_core().coordinates, expected);
    popup.get_core_mut().term_ysize = 10;
    popup.add("/var");
    let expected = Coordinates { xsize: 100, ysize: 2, xpos: 1, ypos: 8 };
    assert_eq!(popup.get_core().coordinates, expected);
}

#[test]
fn fits_terminal_needs_a_row_for_each_bookmark_and_one_more() {
    let content = "a\n/1\nb\n/2\n".to_string();
    assert!(BMPopup::new(&WidgetCore::new(80, 3), Ok(content.clone())).fits_terminal());
    assert!(!BMPopup::new(&WidgetCore::new(80, 2), Ok(content)).fits_terminal());
    assert!(!BMPopup::new(&WidgetCore::new(80, 0), Err(HError::IoError)).fits_terminal());
    let mut popup = BMPopup::new(&WidgetCore::new(80, 1), Err(HError::IoError));
    assert!(popup.fits_terminal());
    popup.refresh();
    assert_eq!(popup.get_core().coordinates, Coordinates { xsize: 80, ysize: 1, xpos: 1, ypos: 0 });
}

#[test]
fn render_line_pads_the_path() {
    let popup = popup_with("");
    assert_eq!(popup.render_line(3, &'a', "/home/x"), "\x1b[3;1H\x1b[ma: /home/x         ");
}

#[test]
fn render_line_cuts_a_long_path() {
    let popup = BMPopup::new(&WidgetCore::new(8, 24), Err(HError::IoError));
    assert_eq!(popup.render_line(1, &'a', "/home/x"), "\x1b[1;1H\x1b[ma: /hom");
    assert_eq!(popup.render_line(1, &'a', "/hom"), "\x1b[1;1H\x1b[ma: /hom");
    let popup = BMPopup::new(&WidgetCore::new(4, 24), Err(HError::IoError));
    assert_eq!(popup.render_line(1, &'a', "/home/x"), "\x1b[1;1H\x1b[ma: ");
}

#[test]
fn render_line_counts_characters() {
    let popup = BMPopup::new(&WidgetCore::new(9, 24), Err(HError::IoError));
    assert_eq!(popup.render_line(2, &'é', "/été"), "\x1b[2;1H\x1b[mé: /été ");
    assert_eq!(popup.render_line(2, &'é', "/étéété"), "\x1b[2;1H\x1b[mé: /étéé");
}

#[test]
fn render_line_writes_the_row_in_decimal() {
    let popup = popup_with("");
    for row in [0u16, 1, 9, 10, 99, 100, 1000, 12345, 65535] {
        let expected = format!("\x1b[{};1H\x1b[m`: {:16}", row, "/cwd");
        assert_eq!(popup.render_line(row, &'`', "/cwd"), expected);
    }
}

#[test]
fn render_line_agrees_with_termion() {
    let popup = BMPopup::new(&WidgetCore::new(30, 24), Err(HError::IoError));
    let expected = format!(
        "{}{}{}: {:padding$}",
        termion::cursor::Goto(1, 17),
        termion::style::Reset,
        'k',
        "/usr/local",
        padding = 26
    );
    assert_eq!(popup.render_line(17, &'k', "/usr/local"), expected);
}

#[test]
fn drawlist_in_pick_mode_starts_with_the_offered_path() {
    let mut popup = popup_with("a\n/home/x\nb\n/tmp\n");
    popup.pick("/cwd".to_string());
    let expected = [
        "\x1b[21;1H\x1b[m`: /cwd            ",
        "\x1b[22;1H\x1b[ma: /home/x         ",
        "\x1b[23;1H\x1b[mb: /tmp            ",
    ]
    .concat();
    assert_eq!(popup.get_drawlist(), Ok(expected));
}

#[test]
fn drawlist_in_add_mode_lists_the_bookmarks_only() {
    let mut popup = popup_with("a\n/home/x\nb\n/tmp\n");
    popup.add("/var");
    let expected = ["\x1b[22;1H\x1b[ma: /home/x         ", "\x1b[23;1H\x1b[mb: /tmp            "]
        .concat();
    assert_eq!(popup.get_drawlist(), Ok(expected));
    let mut popup = popup_with("");
    popup.add("/var");
    assert_eq!(popup.get_drawlist(), Ok(String::new()));
}

#[test]
fn drawlist_in_pick_mode_needs_an_offered_path() {
    let mut popup = popup_with("a\n/home/x\n");
    assert_eq!(popup.get_drawlist(), Err(HError::NotFound));
    popup.pick("/cwd".to_string());
    assert_eq!(popup.on_key(Key::Ctrl('c')), Ok(Action::Finished));
    assert_eq!(popup.get_drawlist(), Err(HError::NotFound));
}

#[test]
fn drawlist_follows_the_geometry_record() {
    let mut popup = popup_with("a\n/home/x\n");
    popup.pick("/cwd".to_string());
    popup.get_core_mut().coordinates.set_position(1, 5);
    popup.get_core_mut().term_xsize = 12;
    let expected = ["\x1b[5;1H\x1b[m`: /cwd    ", "\x1b[6;1H\x1b[ma: /home/x "].concat();
    assert_eq!(popup.get_drawlist(), Ok(expected));
}

#[test]
fn coordinates_setters_change_their_part() {
    let mut coordinates = Coordinates::new();
    assert_eq!(coordinates, Coordinates { xsize: 1, ysize: 1, xpos: 1, ypos: 1 });
    coordinates.set_size(80, 24);
    coordinates.set_position(3, 7);
    assert_eq!(coordinates.xsize(), 80);
    assert_eq!(coordinates.ysize(), 24);
    assert_eq!(coordinates.xpos(), 3);
    assert_eq!(coordinates.ypos(), 7);
}

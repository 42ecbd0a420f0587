use bezel::terminal::delete::{Delete, Target};
use bezel::terminal::emulator::{Emulator, Picture, Reply};
use bezel::terminal::placement::{
    CursorMovement, Display, Extent, Frame, Placement, Refusal, Slot, Source,
};
use bezel::terminal::screen::{SelectionType, Side};

const FRAME: Frame = Frame { x: 1, y: 2, width: 3, height: 4 };
const SOURCE: Source = Source { x: 0, y: 0, width: 10, height: 20 };

fn display(image: u32, placement: u32) -> Display {
    Display {
        image,
        placement,
        parent_image: 0,
        parent_placement: 0,
        parent_offset_x: 0,
        parent_offset_y: 0,
        unicode: false,
        source_x: 0,
        source_y: 0,
        source_width: 0,
        source_height: 0,
        z: 0,
        quiet: 0,
        cursor_movement: CursorMovement::Stay,
    }
}

fn extent(cols: u16, rows: u16) -> Option<Extent> {
    Some(Extent { cols, rows, frame: FRAME, source: SOURCE })
}

fn ok(image: u32) -> Option<Reply> {
    Some(Reply { id: image, number: 0, placement: 0, error: None })
}

fn none(e: &Emulator) -> Vec<Vec<Option<Slot>>> {
    vec![vec![None; e.cols()]; e.rows()]
}

fn found(e: &Emulator) -> Vec<Placement> {
    e.placements(&none(e))
}

fn spots(e: &Emulator) -> Vec<(u32, usize, usize)> {
    found(e).iter().map(|p| (p.image, p.row, p.col)).collect()
}

#[test]
fn an_image_is_found_where_the_cursor_was() {
    let mut e = Emulator::new(20, 6);
    e.feed(b"\x1b[3;5H");
    let answer = e.display(display(7, 0), extent(4, 2), ok(7));
    assert_eq!(answer, ok(7));
    let all = found(&e);
    assert_eq!(all.len(), 1);
    assert_eq!((all[0].row, all[0].col), (2, 4));
    assert_eq!((all[0].cols, all[0].rows), (4, 2));
    assert_eq!((all[0].image, all[0].frame, all[0].source), (7, FRAME, SOURCE));
    assert_eq!(all[0].slice, (0, 0));
}

#[test]
fn an_image_scrolls_away_with_its_text_and_comes_back() {
    let mut e = Emulator::new(20, 4);
    e.display(display(7, 0), extent(2, 1), None);
    assert_eq!(spots(&e), vec![(7, 0, 0)]);
    e.feed(b"\r\n\r\n\r\n\r\n\r\n");
    assert_eq!(spots(&e), vec![]);
    e.scroll(2);
    assert_eq!(spots(&e), vec![(7, 0, 0)]);
}

#[test]
fn text_over_the_left_edge_leaves_the_image_where_it_was() {
    let mut e = Emulator::new(20, 4);
    e.feed(b"\x1b[2;3H");
    e.display(display(7, 0), extent(5, 1), None);
    e.feed(b"XX");
    assert_eq!(spots(&e), vec![(7, 1, 2)]);
    // With the whole top row overwritten nothing is left to find.
    e.feed(b"\x1b[2;3HXXXXXXXX");
    assert_eq!(spots(&e), vec![]);
}

#[test]
fn clearing_the_screen_takes_the_images_with_it() {
    let mut e = Emulator::new(20, 4);
    e.display(display(7, 0), extent(5, 1), None);
    e.feed(b"\x1b[2J");
    assert_eq!(spots(&e), vec![]);
}

#[test]
fn a_cursor_that_moves_reserves_the_rows() {
    let mut e = Emulator::new(20, 6);
    let mut after = display(7, 0);
    after.cursor_movement = CursorMovement::After;
    e.display(after, extent(4, 3), None);
    assert_eq!(e.cursor().map(|at| at.row), Some(3));
    assert_eq!(spots(&e), vec![(7, 0, 0)]);
    // At the bottom of the screen the reserved rows scroll, and the image with
    // them.
    e.feed(b"\x1b[6;1H");
    e.display(Display { image: 8, ..after }, extent(4, 2), None);
    assert_eq!(spots(&e), vec![(8, 3, 0)]);
}

#[test]
fn a_placement_replaces_the_one_of_the_same_name() {
    let mut e = Emulator::new(20, 6);
    e.display(display(7, 1), extent(2, 1), None);
    e.feed(b"\x1b[4;4H");
    e.display(display(7, 1), extent(2, 1), None);
    assert_eq!(spots(&e), vec![(7, 3, 3)]);
    e.display(display(7, 2), extent(2, 1), None);
    assert_eq!(spots(&e).len(), 2);
}

#[test]
fn an_image_with_nothing_to_show_is_placed_nowhere() {
    let mut e = Emulator::new(20, 6);
    assert_eq!(e.display(display(7, 0), None, ok(7)), ok(7));
    assert_eq!(spots(&e), vec![]);
}

fn relative(image: u32, parent: u32, x: i32, y: i32) -> Display {
    Display {
        parent_image: parent,
        parent_placement: 0,
        parent_offset_x: x,
        parent_offset_y: y,
        ..display(image, 0)
    }
}

#[test]
fn a_relative_placement_hangs_off_its_parent() {
    let mut e = Emulator::new(20, 6);
    e.feed(b"\x1b[2;2H");
    e.display(display(1, 0), extent(2, 2), None);
    e.display(relative(2, 1, 3, 1), extent(2, 1), None);
    assert_eq!(spots(&e), vec![(1, 1, 1), (2, 2, 4)]);
    // And goes where its parent goes.
    e.delete(Delete { target: Target::Image { id: 1, placement: 0 }, free: false }, &none(&e));
    assert_eq!(spots(&e), vec![]);
}

#[test]
fn a_parent_nobody_placed_refuses_the_child() {
    let mut e = Emulator::new(20, 6);
    let answer = e.display(relative(2, 1, 0, 0), extent(2, 1), ok(2)).unwrap();
    assert_eq!(answer.error, Some(Refusal::NoParent));
    assert_eq!(answer.error.unwrap().message(), "ENOPARENT");
    assert_eq!(spots(&e), vec![]);
}

#[test]
fn a_placement_cannot_be_its_own_ancestor() {
    let mut e = Emulator::new(20, 6);
    e.display(display(1, 0), extent(2, 1), None);
    e.display(relative(2, 1, 0, 0), extent(2, 1), None);
    e.display(relative(3, 2, 0, 0), extent(2, 1), None);
    let answer = e.display(relative(2, 3, 0, 0), extent(2, 1), ok(2)).unwrap();
    assert_eq!(answer.error, Some(Refusal::Cycle));
    assert_eq!(answer.error.unwrap().message(), "ECYCLE");
}

#[test]
fn a_chain_of_parents_is_only_so_long() {
    let mut e = Emulator::new(20, 6);
    e.display(display(1, 0), extent(2, 1), None);
    let mut refused = None;
    for image in 2..20 {
        let answer = e.display(relative(image, image - 1, 0, 0), extent(2, 1), ok(image)).unwrap();
        if answer.error.is_some() {
            refused = Some((image, answer.error.unwrap()));
            break;
        }
    }
    assert_eq!(refused, Some((10, Refusal::TooDeep)));
    assert_eq!(Refusal::TooDeep.message(), "ETOODEEP");
}

#[test]
fn a_virtual_placement_hangs_off_nothing() {
    let mut e = Emulator::new(20, 6);
    e.display(display(1, 0), extent(2, 1), None);
    let both = Display { unicode: true, ..relative(2, 1, 0, 0) };
    let answer = e.display(both, extent(2, 1), ok(2)).unwrap();
    assert_eq!(answer.error, Some(Refusal::Virtual));
    assert!(answer.error.unwrap().message().starts_with("EINVAL"));
    // A client that wants no replies gets none.
    let quiet = Display { quiet: 2, ..both };
    assert_eq!(e.display(quiet, extent(2, 1), ok(2)), None);
}

#[test]
fn placeholders_show_the_slices_of_a_virtual_placement() {
    let mut e = Emulator::new(10, 3);
    let virt = Display { unicode: true, ..display(9, 0) };
    e.display(virt, extent(3, 2), None);
    assert_eq!(spots(&e), vec![]);
    let mut slots = none(&e);
    for col in 0..3u32 {
        slots[1][2 + col as usize] = Some(Slot { image: 9, placement: 0, row: 1, col });
    }
    // A cell outside the box shows nothing.
    slots[2][0] = Some(Slot { image: 9, placement: 0, row: 5, col: 0 });
    let all = e.placements(&slots);
    assert_eq!(all.len(), 1);
    assert_eq!((all[0].row, all[0].col, all[0].cols, all[0].rows), (1, 2, 3, 1));
    assert_eq!(all[0].slice, (0, 1));
}

fn three() -> Emulator {
    let mut e = Emulator::new(20, 6);
    e.display(display(1, 0), extent(3, 2), None);
    e.feed(b"\x1b[4;6H");
    e.display(Display { z: 5, ..display(2, 0) }, extent(3, 2), None);
    e.feed(b"\x1b[6;11H");
    e.display(display(3, 0), extent(2, 1), None);
    e
}

fn gone(target: Target, free: bool) -> (Vec<u32>, Vec<u32>) {
    let mut e = three();
    let slots = none(&e);
    let mut freed = e.delete(Delete { target, free }, &slots);
    freed.sort();
    freed.dedup();
    (spots(&e).iter().map(|spot| spot.0).collect(), freed)
}

#[test]
fn a_delete_takes_what_it_names() {
    assert_eq!(gone(Target::Image { id: 1, placement: 0 }, false).0, vec![2, 3]);
    assert_eq!(gone(Target::Image { id: 1, placement: 4 }, false).0, vec![1, 2, 3]);
    assert_eq!(gone(Target::Range(2, 3), false).0, vec![1]);
    assert_eq!(gone(Target::Z(5), false).0, vec![1, 3]);
}

#[test]
fn a_delete_takes_what_stands_where_it_says() {
    assert_eq!(gone(Target::Cursor, false).0, vec![1, 2]);
    assert_eq!(gone(Target::Cell { col: 6, row: 4, z: None }, false).0, vec![1, 3]);
    assert_eq!(gone(Target::Cell { col: 6, row: 4, z: Some(1) }, false).0, vec![1, 2, 3]);
    assert_eq!(gone(Target::Column(2), false).0, vec![2, 3]);
    assert_eq!(gone(Target::Row(1), false).0, vec![2, 3]);
    assert_eq!(gone(Target::All, false).0, Vec::<u32>::new());
}

#[test]
fn a_delete_frees_only_what_it_is_asked_to() {
    assert_eq!(gone(Target::Image { id: 1, placement: 0 }, false).1, vec![]);
    assert_eq!(gone(Target::Image { id: 1, placement: 0 }, true).1, vec![1]);
    assert_eq!(gone(Target::All, true).1, vec![1, 2, 3]);
    assert_eq!(gone(Target::All, true).0, Vec::<u32>::new());
}

#[test]
fn what_has_gone_into_history_is_not_deleted_with_the_screen() {
    let mut e = Emulator::new(20, 3);
    e.display(display(1, 0), extent(2, 1), None);
    e.feed(b"\x1b[3;1H\n\n\n\x1b[1;1H");
    e.display(display(2, 0), extent(2, 1), None);
    let slots = none(&e);
    assert_eq!(e.delete(Delete { target: Target::All, free: true }, &slots), vec![2]);
    assert_eq!(spots(&e), vec![]);
    e.scroll(3);
    assert_eq!(spots(&e).iter().map(|spot| spot.0).collect::<Vec<u32>>(), vec![1]);
}

#[test]
fn an_image_with_a_placement_left_keeps_its_data() {
    let mut e = Emulator::new(20, 6);
    e.display(display(1, 1), extent(2, 1), None);
    e.feed(b"\x1b[4;4H");
    e.display(display(1, 2), extent(2, 1), None);
    let slots = none(&e);
    let freed = e.delete(
        Delete { target: Target::Image { id: 1, placement: 1 }, free: true },
        &slots,
    );
    assert_eq!(freed, vec![]);
    assert_eq!(spots(&e), vec![(1, 3, 3)]);
}

#[test]
fn a_held_frame_keeps_its_images() {
    let mut e = Emulator::new(20, 6);
    e.display(display(1, 0), extent(2, 1), None);
    e.feed(b"\x1b[?2026h");
    e.feed(b"\x1b[2J");
    assert_eq!(spots(&e), vec![(1, 0, 0)]);
    e.feed(b"\x1b[?2026l");
    assert_eq!(spots(&e), vec![]);
}

#[test]
fn copied_text_holds_no_anchor() {
    let mut e = Emulator::new(20, 3);
    e.feed(b"abc\x1b[1;1H");
    e.display(display(1, 0), extent(3, 1), None);
    e.start_selection(SelectionType::Simple, e.grid_point(0, 0), Side::Left);
    e.update_selection(e.grid_point(0, 2), Side::Right);
    assert_eq!(e.selection_text().as_deref(), Some("abc"));
    assert_eq!(e.row_text(0), "abc");
}

#[test]
fn a_source_is_clipped_to_its_image() {
    let mut d = display(1, 0);
    assert_eq!(d.clip(10, 20), Some(SOURCE));
    d.source_x = 4;
    d.source_width = 100;
    assert_eq!(d.clip(10, 20), Some(Source { x: 4, y: 0, width: 6, height: 20 }));
    d.source_x = 10;
    assert_eq!(d.clip(10, 20), None);
}

#[test]
fn a_picture_stops_the_feed_and_the_rest_resumes_it() {
    let mut e = Emulator::new(20, 3);
    let fed = e.feed(b"ab\x1b_Ga=T;AAAA\x1b\\cd");
    assert_eq!(e.row_text(0), "ab");
    match fed.picture {
        Some(Picture::Graphics(run)) => assert_eq!(run, b"Ga=T;AAAA".to_vec()),
        _ => panic!("no picture"),
    }
    let fed = e.resume(fed.rest);
    assert!(fed.picture.is_none());
    assert_eq!(e.row_text(0), "abcd");
}

#[test]
fn a_file_in_parts_is_whole_at_its_end() {
    let mut e = Emulator::new(20, 3);
    let limit = 100;
    let mut fed = e.feed(
        b"\x1b]1337;MultipartFile=name=x\x07\x1b]1337;FilePart=QQ==\x07\x1b]1337;FilePart=Qg==\x07\x1b]1337;FileEnd\x07",
    );
    let mut whole = None;
    loop {
        match fed.picture.take() {
            Some(Picture::Part(_)) => e.file_part(vec![b'A'], limit),
            Some(Picture::Whole { args, bytes }) => whole = Some((args, bytes)),
            Some(_) => panic!("another picture"),
            None => break,
        }
        fed = e.resume(fed.rest);
    }
    assert_eq!(whole, Some((b"name=x".to_vec(), b"AA".to_vec())));
}

#[test]
fn a_file_past_its_limit_is_let_go() {
    let mut e = Emulator::new(20, 3);
    let mut fed = e.feed(
        b"\x1b]1337;MultipartFile=name=x\x07\x1b]1337;FilePart=QQ==\x07\x1b]1337;FileEnd\x07",
    );
    let mut whole = false;
    loop {
        match fed.picture.take() {
            Some(Picture::Part(_)) => e.file_part(vec![b'A'; 5], 4),
            Some(Picture::Whole { .. }) => whole = true,
            Some(_) => panic!("another picture"),
            None => break,
        }
        fed = e.resume(fed.rest);
    }
    assert!(!whole);
}

#[test]
fn sixel_is_advertised_when_it_is_asked_for() {
    let mut e = Emulator::new(20, 3);
    assert_eq!(e.feed(b"\x1b[c").responses, b"\x1b[?6c".to_vec());
    e.set_advertise_sixel(true);
    assert_eq!(e.feed(b"\x1b[c").responses, b"\x1b[?62;4;22c".to_vec());
}

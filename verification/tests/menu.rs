use tetris::menu::MenuItem;
use tetris::menu::MenuMode;

fn item(id: u8, selectable: bool) -> MenuItem<u8> {
    MenuItem { id, string: "line", selectable }
}

fn menu(marks: &[bool]) -> MenuMode<u8> {
    let mut items = Vec::new();
    for (i, &selectable) in marks.iter().enumerate() {
        items.push(item(i as u8, selectable));
    }
    MenuMode::new(items)
}

#[test]
fn new_menu_selects_first_selectable_item() {
    let m = menu(&[false, true, true]);
    assert_eq!(*m.get_selected(), Some(1));
    assert_eq!(m.select(), Some(&1));
}

#[test]
fn new_menu_without_selectable_items_selects_nothing() {
    let m = menu(&[false, false]);
    assert_eq!(*m.get_selected(), None);
    assert_eq!(m.select(), None);
}

#[test]
fn empty_menu_selects_nothing() {
    let mut m = menu(&[]);
    assert_eq!(*m.get_selected(), None);
    m.down();
    assert_eq!(*m.get_selected(), None);
    m.up();
    assert_eq!(*m.get_selected(), None);
    assert_eq!(m.get_items().len(), 0);
}

#[test]
fn down_skips_unselectable_items() {
    let mut m = menu(&[true, false, false, true, true]);
    assert_eq!(*m.get_selected(), Some(0));
    m.down();
    assert_eq!(*m.get_selected(), Some(3));
    m.down();
    assert_eq!(*m.get_selected(), Some(4));
}

#[test]
fn down_wraps_to_first_selectable_item() {
    let mut m = menu(&[false, true, false, true, false]);
    m.down();
    assert_eq!(*m.get_selected(), Some(3));
    m.down();
    assert_eq!(*m.get_selected(), Some(1));
    assert_eq!(m.select(), Some(&1));
}

#[test]
fn up_skips_unselectable_items() {
    let mut m = menu(&[true, false, false, true, true]);
    m.down();
    m.down();
    assert_eq!(*m.get_selected(), Some(4));
    m.up();
    assert_eq!(*m.get_selected(), Some(3));
    m.up();
    assert_eq!(*m.get_selected(), Some(0));
}

#[test]
fn up_wraps_to_last_selectable_item() {
    let mut m = menu(&[false, true, false, true, false]);
    assert_eq!(*m.get_selected(), Some(1));
    m.up();
    assert_eq!(*m.get_selected(), Some(3));
    assert_eq!(m.select(), Some(&3));
    m.up();
    assert_eq!(*m.get_selected(), Some(1));
}

#[test]
fn single_selectable_item_stays_selected() {
    let mut m = menu(&[false, false, true]);
    assert_eq!(*m.get_selected(), Some(2));
    m.down();
    assert_eq!(*m.get_selected(), Some(2));
    m.up();
    assert_eq!(*m.get_selected(), Some(2));
}

#[test]
fn moves_without_selectable_items_do_nothing() {
    let mut m = menu(&[false, false, false]);
    m.down();
    assert_eq!(*m.get_selected(), None);
    m.up();
    assert_eq!(*m.get_selected(), None);
    assert_eq!(m.select(), None);
}

#[test]
fn selection_always_rests_on_a_selectable_item() {
    let marks = [false, true, true, false, true, false, false, true];
    let mut m = menu(&marks);
    for step in 0..40 {
        if step % 3 == 0 {
            m.up();
        } else {
            m.down();
        }
        let at = m.get_selected().expect("a selectable item exists");
        assert!(marks[at]);
        assert!(m.get_items()[at].selectable);
        assert_eq!(m.select(), Some(&(at as u8)));
    }
}

#[test]
fn items_keep_their_order_and_labels() {
    let m = MenuMode::new(vec![
        MenuItem { id: 'a', string: "first", selectable: false },
        MenuItem { id: 'b', string: "second", selectable: true },
    ]);
    let items = m.get_items();
    assert_eq!(items.len(), 2);
    assert_eq!(items[0].id, 'a');
    assert_eq!(items[0].string, "first");
    assert!(!items[0].selectable);
    assert_eq!(items[1].id, 'b');
    assert_eq!(items[1].string, "second");
    assert!(items[1].selectable);
}

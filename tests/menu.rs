use calzone_viewer::menu::{MenuLine, VolumeMenu};

// world > (detector > pixel), shield
fn parents() -> Vec<Option<usize>> {
    vec![None, Some(0), Some(1), Some(0)]
}

fn line(entity: usize, depth: usize, folded: bool) -> MenuLine {
    MenuLine { entity, depth, folded }
}

#[test]
fn folded_menu_shows_the_root() {
    let menu = VolumeMenu::new(4);
    assert_eq!(menu.lines(&parents()), vec![line(0, 0, true)]);
}

#[test]
fn unfolding_shows_children() {
    let p = parents();
    let mut menu = VolumeMenu::new(4);
    menu.toggle(&p, 0, false);
    assert_eq!(menu.lines(&p), vec![line(0, 0, false), line(1, 1, true), line(3, 1, false)]);
    menu.toggle(&p, 1, false);
    assert_eq!(
        menu.lines(&p),
        vec![line(0, 0, false), line(1, 1, false), line(2, 2, false), line(3, 1, false)]
    );
    menu.toggle(&p, 0, false);
    assert_eq!(menu.lines(&p), vec![line(0, 0, true)]);
}

#[test]
fn recursive_toggle_reaches_every_descendant() {
    let p = parents();
    let mut menu = VolumeMenu::new(4);
    menu.toggle(&p, 0, true);
    assert_eq!(menu.expanded, vec![true, true, true, true]);
    menu.toggle(&p, 1, true);
    assert_eq!(menu.expanded, vec![true, false, false, true]);
}

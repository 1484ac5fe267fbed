use gtk_tray::menu::{activate_at, build_menu, build_node, Command, DisplayNode, MenuKind, MenuNode, StatusNotifierWrapper};
use gtk_tray::pixmap::{decode_pixmap, encode_image, select_pixmap, Pixmap};
use gtk_tray::tray::{resolve_icon, IconDescription, Image, Patch, ThemeLookup, Tray, TrayEvent, TrayItem};

fn s(x: &str) -> String {
    x.to_string()
}

fn leaf(id: i32, kind: MenuKind, label: &str) -> MenuNode {
    MenuNode { id, kind, label: s(label), children: vec![] }
}

fn themed(name: &str) -> TrayItem {
    TrayItem { icon: IconDescription::ThemeRef { name: Some(s(name)), search_path: None }, menu_path: None }
}

fn pixmap(w: i32, h: i32) -> Pixmap {
    let n = (w * h * 4) as usize;
    Pixmap { width: w, height: h, pixels: (0..n).map(|i| (i % 251) as u8).collect() }
}

fn pixmap_item(heights: &[i32]) -> TrayItem {
    TrayItem {
        icon: IconDescription::Pixmaps(heights.iter().map(|h| pixmap(2, *h)).collect()),
        menu_path: Some(s("/MenuBar")),
    }
}

fn update(addr: &str, item: TrayItem, menu: Option<Vec<MenuNode>>) -> TrayEvent {
    TrayEvent::Update { address: s(addr), item, menu }
}

fn remove(addr: &str) -> TrayEvent {
    TrayEvent::Remove { address: s(addr) }
}

#[test]
fn themed_item_lifecycle() {
    let mut tray = Tray::new();
    let avail = vec![s("mail-icon"), s("mail-icon-unread")];

    assert!(!tray.apply(update("svc:1", themed("mail-icon"), None)));
    let patches = tray.render(&avail);
    assert_eq!(patches, vec![Patch::Create { address: s("svc:1") }]);
    assert_eq!(tray.displayed_count(), 1);
    let shown = tray.shown_for(&s("svc:1")).unwrap();
    assert_eq!(shown.image, Image::Themed(s("mail-icon")));
    assert!(shown.submenu.is_none());

    let menu = vec![leaf(1, MenuKind::Standard, "Open"), leaf(2, MenuKind::Standard, "Quit")];
    assert!(!tray.apply(update("svc:1", themed("mail-icon-unread"), Some(menu))));
    let patches = tray.render(&avail);
    assert_eq!(patches, vec![Patch::Update { address: s("svc:1"), menu_rebuilt: true }]);
    assert_eq!(tray.displayed_count(), 1);
    assert_eq!(tray.len(), 1);
    let shown = tray.shown_for(&s("svc:1")).unwrap();
    assert_eq!(shown.image, Image::Themed(s("mail-icon-unread")));
    let sub = shown.submenu.as_ref().unwrap();
    assert_eq!(sub.len(), 2);
    assert_eq!(sub[0].label, s("Open"));
    assert_eq!(sub[1].label, s("Quit"));

    assert!(tray.apply(remove("svc:1")));
    let patches = tray.render(&avail);
    assert!(patches.is_empty());
    assert_eq!(tray.displayed_count(), 0);
    assert_eq!(tray.len(), 0);
}

#[test]
fn pixmap_selection_picks_band() {
    let ps: Vec<Pixmap> = vec![pixmap(2, 16), pixmap(2, 24), pixmap(2, 40)];
    assert_eq!(select_pixmap(&ps), Some(1));
    let ps: Vec<Pixmap> = vec![pixmap(2, 16), pixmap(2, 40)];
    assert_eq!(select_pixmap(&ps), None);
    let ps: Vec<Pixmap> = vec![pixmap(2, 20), pixmap(2, 32), pixmap(2, 21), pixmap(2, 31)];
    assert_eq!(select_pixmap(&ps), Some(2));
}

#[test]
fn item_without_suitable_pixmap_is_omitted() {
    let mut tray = Tray::new();
    tray.apply(update("a", pixmap_item(&[16, 40]), None));
    tray.apply(update("b", pixmap_item(&[16, 24, 40]), None));
    let patches = tray.render(&vec![]);
    assert_eq!(patches, vec![Patch::Create { address: s("b") }]);
    assert!(tray.shown_for(&s("a")).is_none());
    match &tray.shown_for(&s("b")).unwrap().image {
        Image::Pixels(img) => assert_eq!((img.width, img.height), (2, 24)),
        other => panic!("unexpected image {:?}", other),
    }
    assert_eq!(tray.displayed_count(), 1);
    assert_eq!(tray.len(), 2);
}

#[test]
fn decode_reorders_argb_to_rgba() {
    let p = Pixmap { width: 2, height: 1, pixels: vec![10, 20, 30, 40, 50, 60, 70, 80] };
    let img = decode_pixmap(&p).unwrap();
    assert_eq!((img.width, img.height), (2, 1));
    assert_eq!(img.data, vec![20, 30, 40, 10, 60, 70, 80, 50]);
    assert_eq!(encode_image(&img), vec![10, 20, 30, 40, 50, 60, 70, 80]);
}

#[test]
fn decode_then_encode_round_trips() {
    for h in 21..32 {
        let p = pixmap(3, h);
        let img = decode_pixmap(&p).unwrap();
        assert_eq!(encode_image(&img), p.pixels);
    }
}

#[test]
fn decode_rejects_inconsistent_sizes() {
    let mut p = pixmap(2, 24);
    p.pixels.pop();
    assert!(decode_pixmap(&p).is_none());
    let mut p = pixmap(2, 24);
    p.pixels.extend_from_slice(&[1, 2, 3, 4]);
    assert!(decode_pixmap(&p).is_none());
    assert!(decode_pixmap(&Pixmap { width: 0, height: 24, pixels: vec![] }).is_none());
    assert!(decode_pixmap(&Pixmap { width: -2, height: -24, pixels: vec![0; 192] }).is_none());
    assert!(decode_pixmap(&Pixmap { width: i32::MAX, height: i32::MAX, pixels: vec![] }).is_none());
}

#[test]
fn malformed_pixmap_is_skipped_not_fatal() {
    let mut tray = Tray::new();
    let bad = TrayItem {
        icon: IconDescription::Pixmaps(vec![Pixmap { width: 2, height: 24, pixels: vec![0; 7] }]),
        menu_path: None,
    };
    tray.apply(update("bad", bad, None));
    assert!(tray.render(&vec![]).is_empty());
    assert_eq!(tray.displayed_count(), 0);
}

fn nested_menu() -> Vec<MenuNode> {
    vec![
        leaf(1, MenuKind::Standard, "Open"),
        leaf(2, MenuKind::Separator, ""),
        MenuNode {
            id: 3,
            kind: MenuKind::Standard,
            label: s("More"),
            children: vec![
                leaf(4, MenuKind::Standard, "Alpha"),
                leaf(5, MenuKind::Separator, ""),
                MenuNode {
                    id: 6,
                    kind: MenuKind::Standard,
                    label: s("Deeper"),
                    children: vec![leaf(7, MenuKind::Standard, "Leaf")],
                },
            ],
        },
    ]
}

fn cmd(id: i32) -> Command {
    Command { submenu_id: id, menu_path: s("/MenuBar"), notifier_address: s(":1.42") }
}

#[test]
fn activating_a_leaf_sends_its_own_id() {
    let built = build_menu(&nested_menu(), &s(":1.42"), &s("/MenuBar"));
    assert_eq!(built.len(), 3);
    assert_eq!(activate_at(&built, &vec![2, 2, 0]), Some(cmd(7)));
    assert_eq!(activate_at(&built, &vec![2, 0]), Some(cmd(4)));
    assert_eq!(activate_at(&built, &vec![0]), Some(cmd(1)));
    assert_eq!(activate_at(&built, &vec![2]), Some(cmd(3)));
    assert_eq!(activate_at(&built, &vec![2, 2]), Some(cmd(6)));
}

#[test]
fn separators_and_bad_paths_send_nothing() {
    let built = build_menu(&nested_menu(), &s(":1.42"), &s("/MenuBar"));
    assert_eq!(activate_at(&built, &vec![1]), None);
    assert_eq!(activate_at(&built, &vec![2, 1]), None);
    assert_eq!(activate_at(&built, &vec![]), None);
    assert_eq!(activate_at(&built, &vec![3]), None);
    assert_eq!(activate_at(&built, &vec![0, 0]), None);
    assert_eq!(activate_at(&built, &vec![2, 2, 1]), None);
}

#[test]
fn built_tree_keeps_order_and_attaches_only_nonempty_submenus() {
    let node = &nested_menu()[2];
    let d: DisplayNode = build_node(node, &s(":1.42"), &s("/MenuBar"));
    assert_eq!(d.kind, MenuKind::Standard);
    assert_eq!(d.label, s("More"));
    let sub = d.submenu.as_ref().unwrap();
    let labels: Vec<&str> = sub.iter().map(|n| n.label.as_str()).collect();
    assert_eq!(labels, vec!["Alpha", "", "Deeper"]);
    assert!(sub[0].submenu.is_none());
    assert_eq!(sub[1].kind, MenuKind::Separator);
    assert!(sub[1].action.is_none());
    assert!(sub[2].submenu.is_some());

    let sep_with_children = MenuNode {
        id: 9,
        kind: MenuKind::Separator,
        label: s(""),
        children: vec![leaf(10, MenuKind::Standard, "Odd")],
    };
    let d = build_node(&sep_with_children, &s("x"), &s("/m"));
    assert!(d.action.is_none());
    assert_eq!(d.submenu.as_ref().unwrap()[0].action, Some(Command {
        submenu_id: 10,
        menu_path: s("/m"),
        notifier_address: s("x"),
    }));
}

#[test]
fn update_twice_equals_once() {
    let avail = vec![s("icon")];
    let mut once = Tray::new();
    once.apply(update("svc", themed("icon"), Some(nested_menu())));
    once.render(&avail);
    let mut twice = Tray::new();
    twice.apply(update("svc", themed("icon"), Some(nested_menu())));
    twice.render(&avail);
    twice.apply(update("svc", themed("icon"), Some(nested_menu())));
    let patches = twice.render(&avail);
    assert_eq!(patches, vec![Patch::Update { address: s("svc"), menu_rebuilt: true }]);
    assert_eq!(once.len(), twice.len());
    assert_eq!(twice.displayed_count(), 1);
    assert_eq!(once.shown_for(&s("svc")), twice.shown_for(&s("svc")));
    assert_eq!(twice.shown_for(&s("svc")).unwrap().submenu.as_ref().unwrap().len(), 3);
}

#[test]
fn removing_unknown_address_is_a_no_op() {
    let mut tray = Tray::new();
    assert!(!tray.apply(remove("nobody")));
    assert_eq!(tray.len(), 0);
    tray.apply(update("svc", themed("icon"), None));
    tray.render(&vec![s("icon")]);
    assert!(!tray.apply(remove("nobody")));
    assert_eq!(tray.len(), 1);
    assert_eq!(tray.displayed_count(), 1);
}

#[test]
fn removing_undisplayed_item_reports_no_slot() {
    let mut tray = Tray::new();
    tray.apply(update("svc", themed("missing"), None));
    assert!(tray.render(&vec![]).is_empty());
    assert!(!tray.apply(remove("svc")));
    assert_eq!(tray.len(), 0);
}

#[test]
fn shown_set_tracks_resolving_items_over_events() {
    let avail = vec![s("a"), s("c")];
    let mut tray = Tray::new();
    let events = vec![
        update("1", themed("a"), None),
        update("2", themed("b"), None),
        update("3", themed("c"), None),
        remove("1"),
        update("2", themed("a"), None),
        update("4", TrayItem {
            icon: IconDescription::ThemeRef { name: None, search_path: None },
            menu_path: None,
        }, None),
    ];
    for ev in events {
        tray.apply(ev);
        tray.render(&avail);
    }
    assert_eq!(tray.len(), 3);
    assert_eq!(tray.displayed_count(), 2);
    assert!(tray.shown_for(&s("1")).is_none());
    assert!(tray.shown_for(&s("2")).is_some());
    assert!(tray.shown_for(&s("3")).is_some());
    assert!(tray.shown_for(&s("4")).is_none());
}

#[test]
fn failed_icon_keeps_previous_slot() {
    let mut tray = Tray::new();
    tray.apply(update("p", pixmap_item(&[24]), None));
    tray.render(&vec![]);
    tray.apply(update("p", pixmap_item(&[48]), Some(vec![leaf(1, MenuKind::Standard, "X")])));
    assert!(tray.render(&vec![]).is_empty());
    let shown = tray.shown_for(&s("p")).unwrap();
    assert!(shown.submenu.is_none());
    assert!(matches!(shown.image, Image::Pixels(_)));
}

#[test]
fn menu_absent_on_update_keeps_submenu() {
    let avail = vec![s("i")];
    let mut tray = Tray::new();
    tray.apply(update("m", themed("i"), Some(vec![leaf(1, MenuKind::Standard, "One")])));
    tray.render(&avail);
    tray.apply(update("m", themed("i"), None));
    let patches = tray.render(&avail);
    assert_eq!(patches, vec![Patch::Update { address: s("m"), menu_rebuilt: false }]);
    assert_eq!(tray.shown_for(&s("m")).unwrap().submenu.as_ref().unwrap().len(), 1);
    tray.apply(update("m", themed("i"), Some(vec![])));
    tray.render(&avail);
    assert_eq!(tray.shown_for(&s("m")).unwrap().submenu.as_ref().unwrap().len(), 0);
}

#[test]
fn empty_menu_attaches_nothing() {
    let mut tray = Tray::new();
    tray.apply(update("e", themed("i"), Some(vec![])));
    tray.render(&vec![s("i")]);
    assert!(tray.shown_for(&s("e")).unwrap().submenu.is_none());
}

#[test]
fn commands_carry_item_address_and_menu_path() {
    let mut tray = Tray::new();
    let item = TrayItem {
        icon: IconDescription::ThemeRef { name: Some(s("i")), search_path: None },
        menu_path: Some(s("/MenuBar")),
    };
    tray.apply(update(":1.42", item, Some(nested_menu())));
    tray.render(&vec![s("i")]);
    let sub = tray.shown_for(&s(":1.42")).unwrap().submenu.as_ref().unwrap();
    assert_eq!(activate_at(sub, &vec![2, 2, 0]), Some(cmd(7)));
}

#[test]
fn theme_lookups_list_named_icons_in_order() {
    let mut tray = Tray::new();
    tray.apply(update("1", TrayItem {
        icon: IconDescription::ThemeRef { name: Some(s("one")), search_path: Some(s("/usr/share/app")) },
        menu_path: None,
    }, None));
    tray.apply(update("2", pixmap_item(&[24]), None));
    tray.apply(update("3", TrayItem {
        icon: IconDescription::ThemeRef { name: None, search_path: Some(s("/x")) },
        menu_path: None,
    }, None));
    tray.apply(update("4", themed("four"), None));
    assert_eq!(tray.theme_lookups(), vec![
        ThemeLookup { name: s("one"), search_path: Some(s("/usr/share/app")) },
        ThemeLookup { name: s("four"), search_path: None },
    ]);
}

#[test]
fn resolve_icon_needs_name_in_theme() {
    assert_eq!(resolve_icon(&themed("a"), &vec![s("a")]), Some(Image::Themed(s("a"))));
    assert_eq!(resolve_icon(&themed("a"), &vec![s("b")]), None);
    let nameless = TrayItem { icon: IconDescription::ThemeRef { name: None, search_path: None }, menu_path: None };
    assert_eq!(resolve_icon(&nameless, &vec![s("a")]), None);
}

#[test]
fn wrapper_builds_the_wrapped_entry() {
    let menu = nested_menu().remove(2);
    let d = StatusNotifierWrapper { menu }.into_menu_item(s(":1.42"), s("/MenuBar"));
    assert_eq!(d.action, Some(cmd(3)));
    assert_eq!(activate_at(d.submenu.as_ref().unwrap(), &vec![2, 0]), Some(cmd(7)));
}

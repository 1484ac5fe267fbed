use vstd::prelude::*;
use crate::menu::{build_menu, built_all, menu_views, DisplayNode, DisplayView, MenuNode, display_views};
use crate::pixmap::{decode_pixmap, decoded, preferred_index, select_pixmap, Pixmap, RgbaImage};

verus! {

/// How an item describes its icon: raw bitmaps at several sizes, or the name
/// of an icon in the icon theme together with a directory to search.
#[derive(Debug, PartialEq, Eq)]
pub enum IconDescription {
    Pixmaps(Vec<Pixmap>),
    ThemeRef { name: Option<String>, search_path: Option<String> },
}

/// What an item publishes about itself.
#[derive(Debug, PartialEq, Eq)]
pub struct TrayItem {
    pub icon: IconDescription,
    pub menu_path: Option<String>,
}

/// One message from the bus side: an item appeared or changed, or it left.
#[derive(Debug, PartialEq, Eq)]
pub enum TrayEvent {
    Update { address: String, item: TrayItem, menu: Option<Vec<MenuNode>> },
    Remove { address: String },
}

/// The latest known state of one item, keyed by its bus address.
#[derive(Debug, PartialEq, Eq)]
pub struct TrayEntry {
    pub address: String,
    pub item: TrayItem,
    pub menu: Option<Vec<MenuNode>>,
}

/// The image bound to an item's slot in the tray.
#[derive(Debug, PartialEq, Eq)]
pub enum Image {
    Pixels(RgbaImage),
    Themed(String),
}

/// What the tray shows for one item: its image and, once attached, its menu.
#[derive(Debug, PartialEq, Eq)]
pub struct Shown {
    pub image: Image,
    pub submenu: Option<Vec<DisplayNode>>,
}

/// A change the display has to make after a rendering pass.
#[derive(Debug, PartialEq, Eq)]
pub enum Patch {
    /// A slot is created for the item at this address.
    Create { address: String },
    /// The slot of the item at this address gets a new image, and a freshly
    /// built menu when `menu_rebuilt` holds.
    Update { address: String, menu_rebuilt: bool },
}

/// A theme lookup the display has to make before a rendering pass.
#[derive(Debug, PartialEq, Eq)]
pub struct ThemeLookup {
    pub name: String,
    pub search_path: Option<String>,
}

/// The registry of items with, beside each, what the tray shows for it.
/// The two sequences have one position per item, so an item and its slot are
/// added and removed together.
pub struct Tray {
    entries: Vec<TrayEntry>,
    shown: Vec<Option<Shown>>,
}

pub enum ImageView {
    Pixels(i32, i32, Seq<u8>),
    Themed(Seq<char>),
}

pub struct ShownView {
    pub image: ImageView,
    pub submenu: Option<Seq<DisplayView>>,
}

pub struct TrayModel {
    pub entries: Seq<TrayEntry>,
    pub shown: Seq<Option<ShownView>>,
}

pub enum PatchView {
    Create(Seq<char>),
    Update(Seq<char>, bool),
}

pub open spec fn image_view(i: Image) -> ImageView {
    match i {
        Image::Pixels(img) => ImageView::Pixels(img.width, img.height, img.data@),
        Image::Themed(n) => ImageView::Themed(n@),
    }
}

pub open spec fn shown_view(s: Option<Shown>) -> Option<ShownView> {
    match s {
        Some(s) => Some(
            ShownView {
                image: image_view(s.image),
                submenu: match s.submenu {
                    Some(v) => Some(display_views(v@)),
                    None => None,
                },
            },
        ),
        None => None,
    }
}

pub open spec fn patch_view(p: Patch) -> PatchView {
    match p {
        Patch::Create { address } => PatchView::Create(address@),
        Patch::Update { address, menu_rebuilt } => PatchView::Update(address@, menu_rebuilt),
    }
}

pub open spec fn names_view(v: Seq<String>) -> Seq<Seq<char>> {
    v.map_values(|s: String| s@)
}

/// The image an item's icon resolves to, given the names the icon theme has:
/// the first bitmap in the preferred band, decoded; or the themed icon, when
/// the item names one and the theme has it.
pub open spec fn icon_of(item: TrayItem, available: Seq<Seq<char>>) -> Option<ImageView> {
    match item.icon {
        IconDescription::Pixmaps(ps) => match preferred_index(ps@) {
            Some(i) => match decoded(ps@[i]) {
                Some(d) => Some(ImageView::Pixels(d.0, d.1, d.2)),
                None => None,
            },
            None => None,
        },
        IconDescription::ThemeRef { name, search_path } => match name {
            Some(n) => if available.contains(n@) {
                Some(ImageView::Themed(n@))
            } else {
                None
            },
            None => None,
        },
    }
}

/// The menu object that commands of an item are addressed to.
pub open spec fn menu_path_of(item: TrayItem) -> Seq<char> {
    match item.menu_path {
        Some(p) => p@,
        None => Seq::empty(),
    }
}

/// What the tray shows for entry `e` after a pass, given what it showed
/// before. An item whose icon does not resolve keeps its former state. One
/// that resolves gets the new image; its menu is rebuilt when it has menu data
/// (an empty menu attaches nothing to a slot that had none) and is kept as it
/// was when it has none.
pub open spec fn rendered(e: TrayEntry, prev: Option<ShownView>, available: Seq<Seq<char>>) -> Option<ShownView> {
    match icon_of(e.item, available) {
        None => prev,
        Some(img) => {
            let prev_sub = match prev {
                Some(s) => s.submenu,
                None => None,
            };
            Some(
                ShownView {
                    image: img,
                    submenu: match e.menu {
                        None => prev_sub,
                        Some(ms) => if ms@.len() == 0 && prev_sub is None {
                            None
                        } else {
                            Some(built_all(menu_views(ms@), e.address@, menu_path_of(e.item)))
                        },
                    },
                },
            )
        },
    }
}

pub open spec fn has_address(entries: Seq<TrayEntry>, a: Seq<char>) -> bool {
    exists|i: int| 0 <= i < entries.len() && (#[trigger] entries[i]).address@ == a
}

/// The position of the entry with address `a`.
pub open spec fn position(entries: Seq<TrayEntry>, a: Seq<char>) -> Option<int> {
    if has_address(entries, a) {
        Some(choose|i: int| 0 <= i < entries.len() && (#[trigger] entries[i]).address@ == a)
    } else {
        None
    }
}

pub open spec fn unique_addresses(entries: Seq<TrayEntry>) -> bool {
    forall|i: int, j: int|
        0 <= i < entries.len() && 0 <= j < entries.len() && i != j ==> (#[trigger] entries[i]).address@
            != (#[trigger] entries[j]).address@
}

impl TrayModel {
    pub open spec fn wf(self) -> bool {
        &&& self.shown.len() == self.entries.len()
        &&& unique_addresses(self.entries)
    }

    /// Whether the tray shows a slot for address `a`.
    pub open spec fn displays(self, a: Seq<char>) -> bool {
        position(self.entries, a) matches Some(i) && self.shown[i] is Some
    }
}

/// The state after one event: an update replaces the whole entry of its
/// address, in place, or appends a new entry with nothing shown yet; a removal
/// drops the entry and its slot together, and changes nothing for an unknown
/// address.
pub open spec fn applied(m: TrayModel, ev: TrayEvent) -> TrayModel {
    match ev {
        TrayEvent::Update { address, item, menu } => {
            let e = TrayEntry { address, item, menu };
            match position(m.entries, address@) {
                Some(i) => TrayModel { entries: m.entries.update(i, e), shown: m.shown },
                None => TrayModel { entries: m.entries.push(e), shown: m.shown.push(None) },
            }
        },
        TrayEvent::Remove { address } => match position(m.entries, address@) {
            Some(i) => TrayModel { entries: m.entries.remove(i), shown: m.shown.remove(i) },
            None => m,
        },
    }
}

/// The state after a rendering pass over every entry.
pub open spec fn rendered_model(m: TrayModel, available: Seq<Seq<char>>) -> TrayModel {
    TrayModel {
        entries: m.entries,
        shown: Seq::new(m.entries.len(), |i: int| rendered(m.entries[i], m.shown[i], available)),
    }
}

/// The changes a pass over the first `n` entries asks of the display, in
/// registry order.
pub open spec fn patches_upto(m: TrayModel, available: Seq<Seq<char>>, n: int) -> Seq<PatchView>
    decreases n,
{
    if n <= 0 {
        Seq::empty()
    } else {
        let before = patches_upto(m, available, n - 1);
        let e = m.entries[n - 1];
        match icon_of(e.item, available) {
            None => before,
            Some(_) => before.push(
                if m.shown[n - 1] is None {
                    PatchView::Create(e.address@)
                } else {
                    PatchView::Update(e.address@, e.menu is Some)
                },
            ),
        }
    }
}

/// The themed icons the first `n` entries name, in registry order.
pub open spec fn lookups_upto(entries: Seq<TrayEntry>, n: int) -> Seq<(Seq<char>, Option<Seq<char>>)>
    decreases n,
{
    if n <= 0 {
        Seq::empty()
    } else {
        let before = lookups_upto(entries, n - 1);
        match entries[n - 1].item.icon {
            IconDescription::ThemeRef { name, search_path } => match name {
                Some(nm) => before.push(
                    (
                        nm@,
                        match search_path {
                            Some(sp) => Some(sp@),
                            None => None,
                        },
                    ),
                ),
                None => before,
            },
            IconDescription::Pixmaps(_) => before,
        }
    }
}

pub open spec fn lookup_view(l: ThemeLookup) -> (Seq<char>, Option<Seq<char>>) {
    (
        l.name@,
        match l.search_path {
            Some(sp) => Some(sp@),
            None => None,
        },
    )
}

impl View for Tray {
    type V = TrayModel;

    closed spec fn view(&self) -> TrayModel {
        TrayModel {
            entries: self.entries@,
            shown: Seq::new(self.shown@.len(), |i: int| shown_view(self.shown@[i])),
        }
    }
}

fn copy_opt_string(s: &Option<String>) -> (r: Option<String>)
    ensures
        r == *s,
{
    match s {
        Some(x) => Some(x.clone()),
        None => None,
    }
}

/// Whether `name` is among `names`.
pub fn contains_name(names: &Vec<String>, name: &String) -> (r: bool)
    ensures
        r == names_view(names@).contains(name@),
{
    let mut i: usize = 0;
    while i < names.len()
        invariant
            i <= names.len(),
            forall|j: int| 0 <= j < i ==> (#[trigger] names@[j])@ != name@,
        decreases names.len() - i,
    {
        if names[i] == *name {
            assert(names_view(names@)[i as int] == name@);
            return true;
        }
        i = i + 1;
    }
    assert(!names_view(names@).contains(name@)) by {
        if names_view(names@).contains(name@) {
            let k = choose|k: int| 0 <= k < names_view(names@).len() && names_view(names@)[k] == name@;
            assert(names@[k]@ == name@);
        }
    }
    false
}

/// Resolves an item's icon, given the names the icon theme has: the first
/// bitmap in the preferred band, decoded, or the themed icon the item names.
pub fn resolve_icon(item: &TrayItem, available: &Vec<String>) -> (r: Option<Image>)
    ensures
        match r {
            Some(img) => icon_of(*item, names_view(available@)) == Some(image_view(img)),
            None => icon_of(*item, names_view(available@)) is None,
        },
{
    match &item.icon {
        IconDescription::Pixmaps(ps) => match select_pixmap(ps) {
            Some(i) => match decode_pixmap(&ps[i]) {
                Some(img) => Some(Image::Pixels(img)),
                None => None,
            },
            None => None,
        },
        IconDescription::ThemeRef { name, search_path: _ } => match name {
            Some(n) => if contains_name(available, n) {
                Some(Image::Themed(n.clone()))
            } else {
                None
            },
            None => None,
        },
    }
}

pub open spec fn patch_views(ps: Seq<Patch>) -> Seq<PatchView> {
    ps.map_values(|p: Patch| patch_view(p))
}

pub open spec fn lookup_views(ls: Seq<ThemeLookup>) -> Seq<(Seq<char>, Option<Seq<char>>)> {
    ls.map_values(|l: ThemeLookup| lookup_view(l))
}

/// How many of the slots in `s` are shown.
pub open spec fn shown_count(s: Seq<Option<ShownView>>) -> nat
    decreases s.len(),
{
    if s.len() == 0 {
        0
    } else {
        shown_count(s.drop_last()) + if s.last() is Some {
            1nat
        } else {
            0nat
        }
    }
}

impl Tray {
    /// An empty tray: no items, nothing shown.
    pub fn new() -> (r: Tray)
        ensures
            r@.wf(),
            r@.entries.len() == 0,
    {
        let r = Tray { entries: Vec::new(), shown: Vec::new() };
        assert(r@.shown =~= Seq::<Option<ShownView>>::empty());
        r
    }

    /// The number of items in the registry.
    pub fn len(&self) -> (r: usize)
        requires
            self@.wf(),
        ensures
            r == self@.entries.len(),
    {
        self.entries.len()
    }

    /// The number of items the tray shows a slot for.
    pub fn displayed_count(&self) -> (r: usize)
        requires
            self@.wf(),
        ensures
            r == shown_count(self@.shown),
    {
        let mut c: usize = 0;
        let mut i: usize = 0;
        while i < self.shown.len()
            invariant
                i <= self.shown@.len(),
                self@.shown.len() == self.shown@.len(),
                c == shown_count(self@.shown.subrange(0, i as int)),
                c <= i,
            decreases self.shown.len() - i,
        {
            assert(self@.shown.subrange(0, i + 1).drop_last() =~= self@.shown.subrange(0, i as int));
            if self.shown[i].is_some() {
                c = c + 1;
            }
            i = i + 1;
        }
        assert(self@.shown.subrange(0, i as int) =~= self@.shown);
        c
    }

    /// The position of the item with address `a`, if it is registered.
    pub fn find_address(&self, a: &String) -> (r: Option<usize>)
        requires
            self@.wf(),
        ensures
            match r {
                Some(i) => i < self@.entries.len() && position(self@.entries, a@) == Some(i as int),
                None => position(self@.entries, a@) is None,
            },
    {
        let mut i: usize = 0;
        while i < self.entries.len()
            invariant
                i <= self.entries@.len(),
                self@.wf(),
                forall|j: int| 0 <= j < i ==> (#[trigger] self.entries@[j]).address@ != a@,
            decreases self.entries.len() - i,
        {
            if self.entries[i].address == *a {
                assert(has_address(self@.entries, a@));
                proof {
                    let k = choose|k: int| 0 <= k < self@.entries.len() && (#[trigger] self@.entries[k]).address@ == a@;
                    assert(self@.entries[i as int].address@ == a@);
                    assert(self@.entries[k].address@ == a@);
                    assert(k == i);
                }
                return Some(i);
            }
            i = i + 1;
        }
        None
    }

    /// What the tray shows for the item with address `a`.
    pub fn shown_for(&self, a: &String) -> (r: Option<&Shown>)
        requires
            self@.wf(),
        ensures
            match r {
                Some(s) => self@.displays(a@) && self@.shown[position(self@.entries, a@)->0]
                    == shown_view(Some(*s)),
                None => !self@.displays(a@),
            },
    {
        match self.find_address(a) {
            Some(i) => match &self.shown[i] {
                Some(s) => Some(s),
                None => None,
            },
            None => None,
        }
    }

    /// Applies one event to the registry. An update replaces the whole entry
    /// of its address; a removal drops the entry and its slot together and
    /// reports whether a slot was shown for it, so the display can destroy it.
    /// Removing an unknown address changes nothing and reports nothing.
    pub fn apply(&mut self, ev: TrayEvent) -> (destroyed: bool)
        requires
            old(self)@.wf(),
        ensures
            final(self)@.wf(),
            final(self)@ == applied(old(self)@, ev),
            destroyed == (ev matches TrayEvent::Remove { address } && old(self)@.displays(address@)),
    {
        let ghost m = self@;
        proof {
            lemma_applied_wf(m, ev);
        }
        match ev {
            TrayEvent::Update { address, item, menu } => {
                match self.find_address(&address) {
                    Some(i) => {
                        self.entries.set(i, TrayEntry { address, item, menu });
                    },
                    None => {
                        self.entries.push(TrayEntry { address, item, menu });
                        self.shown.push(None);
                    },
                }
                assert(self@.shown =~= applied(m, ev).shown);
                false
            },
            TrayEvent::Remove { address } => {
                match self.find_address(&address) {
                    Some(i) => {
                        self.entries.remove(i);
                        let s = self.shown.remove(i);
                        assert(self@.shown =~= applied(m, ev).shown);
                        s.is_some()
                    },
                    None => false,
                }
            },
        }
    }

    /// The themed icons the registry names, in registry order, each with the
    /// directory its item asks to search: what the display has to look up in
    /// the icon theme before a pass.
    pub fn theme_lookups(&self) -> (r: Vec<ThemeLookup>)
        requires
            self@.wf(),
        ensures
            lookup_views(r@) == lookups_upto(self@.entries, self@.entries.len() as int),
    {
        let mut out: Vec<ThemeLookup> = Vec::new();
        let mut i: usize = 0;
        while i < self.entries.len()
            invariant
                i <= self.entries@.len(),
                lookup_views(out@) == lookups_upto(self@.entries, i as int),
            decreases self.entries.len() - i,
        {
            let ghost before = out@;
            match &self.entries[i].item.icon {
                IconDescription::ThemeRef { name, search_path } => match name {
                    Some(n) => {
                        out.push(ThemeLookup { name: n.clone(), search_path: copy_opt_string(search_path) });
                        assert(lookup_views(out@) =~= lookup_views(before).push(lookup_view(out@.last())));
                    },
                    None => {},
                },
                IconDescription::Pixmaps(_) => {},
            }
            i = i + 1;
        }
        out
    }

    /// One rendering pass over every item, in registry order, given the names
    /// that the icon theme has. Each item whose icon resolves gets a slot, or
    /// has its slot updated in place; the others are left as they were. Gives
    /// the changes the display has to make.
    pub fn render(&mut self, available: &Vec<String>) -> (patches: Vec<Patch>)
        requires
            old(self)@.wf(),
        ensures
            final(self)@.wf(),
            final(self)@ == rendered_model(old(self)@, names_view(available@)),
            patch_views(patches@) == patches_upto(old(self)@, names_view(available@), old(self)@.entries.len() as int),
    {
        let ghost m = self@;
        let ghost av = names_view(available@);
        let mut patches: Vec<Patch> = Vec::new();
        let mut i: usize = 0;
        while i < self.entries.len()
            invariant
                i <= self.entries@.len(),
                self.entries@ == m.entries,
                self.shown@.len() == m.shown.len(),
                m.wf(),
                av == names_view(available@),
                forall|j: int| 0 <= j < i ==> #[trigger] shown_view(self.shown@[j]) == rendered(m.entries[j], m.shown[j], av),
                forall|j: int| i <= j < m.shown.len() ==> #[trigger] shown_view(self.shown@[j]) == m.shown[j],
                patch_views(patches@) == patches_upto(m, av, i as int),
            decreases self.entries.len() - i,
        {
            let ghost before = patches@;
            let ghost shown_before = self.shown@;
            let e = &self.entries[i];
            match resolve_icon(&e.item, available) {
                None => {},
                Some(img) => {
                    let mut prev: Option<Shown> = None;
                    self.shown.set_and_swap(i, &mut prev);
                    let was_shown = prev.is_some();
                    let prev_sub = match prev {
                        Some(s) => s.submenu,
                        None => None,
                    };
                    let submenu = match &e.menu {
                        None => prev_sub,
                        Some(ms) => if ms.len() == 0 && prev_sub.is_none() {
                            None
                        } else {
                            let mp = match &e.item.menu_path {
                                Some(p) => p.clone(),
                                None => String::new(),
                            };
                            Some(build_menu(ms, &e.address, &mp))
                        },
                    };
                    self.shown.set(i, Some(Shown { image: img, submenu }));
                    let address = e.address.clone();
                    if was_shown {
                        patches.push(Patch::Update { address, menu_rebuilt: e.menu.is_some() });
                    } else {
                        patches.push(Patch::Create { address });
                    }
                    assert(patch_views(patches@) =~= patch_views(before).push(patch_view(patches@.last())));
                    assert(m.shown[i as int] == shown_view(shown_before[i as int]));
                    assert(shown_before[i as int] is None <==> !was_shown);
                    assert(patch_views(patches@) == patches_upto(m, av, i + 1));
                    assert(shown_view(self.shown@[i as int]) == rendered(m.entries[i as int], m.shown[i as int], av));
                    assert forall|j: int| 0 <= j < m.shown.len() && j != i implies self.shown@[j] == shown_before[j] by {}
                },
            }
            i = i + 1;
        }
        assert(self@.shown =~= rendered_model(m, av).shown);
        patches
    }
}

/// Applying an event keeps one slot per entry and addresses unique.
pub proof fn lemma_applied_wf(m: TrayModel, ev: TrayEvent)
    requires
        m.wf(),
    ensures
        applied(m, ev).wf(),
{
    let r = applied(m, ev);
    match ev {
        TrayEvent::Update { address, item, menu } => {
            match position(m.entries, address@) {
                Some(i) => {
                    assert(m.entries[i].address@ == address@);
                    assert forall|x: int, y: int|
                        0 <= x < r.entries.len() && 0 <= y < r.entries.len() && x != y implies (#[trigger] r.entries[x]).address@
                            != (#[trigger] r.entries[y]).address@ by {
                        if x != i && y != i {
                            assert(r.entries[x] == m.entries[x]);
                            assert(r.entries[y] == m.entries[y]);
                        } else if x == i {
                            assert(m.entries[y].address@ != m.entries[i].address@);
                        } else {
                            assert(m.entries[x].address@ != m.entries[i].address@);
                        }
                    }
                },
                None => {
                    assert forall|x: int, y: int|
                        0 <= x < r.entries.len() && 0 <= y < r.entries.len() && x != y implies (#[trigger] r.entries[x]).address@
                            != (#[trigger] r.entries[y]).address@ by {
                        if x == m.entries.len() {
                            assert(!has_address(m.entries, address@));
                            assert(m.entries[y].address@ != address@);
                        } else if y == m.entries.len() {
                            assert(m.entries[x].address@ != address@);
                        }
                    }
                },
            }
        },
        TrayEvent::Remove { address } => {
            match position(m.entries, address@) {
                Some(i) => {
                    assert forall|x: int, y: int|
                        0 <= x < r.entries.len() && 0 <= y < r.entries.len() && x != y implies (#[trigger] r.entries[x]).address@
                            != (#[trigger] r.entries[y]).address@ by {
                        let x0 = if x < i { x } else { x + 1 };
                        let y0 = if y < i { y } else { y + 1 };
                        assert(r.entries[x] == m.entries[x0]);
                        assert(r.entries[y] == m.entries[y0]);
                    }
                },
                None => {},
            }
        },
    }
}

/// Whether the entry registered at address `a` has an icon that resolves.
pub open spec fn resolves(m: TrayModel, a: Seq<char>, available: Seq<Seq<char>>) -> bool {
    position(m.entries, a) matches Some(i) && icon_of(m.entries[i].item, available) is Some
}

proof fn lemma_position_at(entries: Seq<TrayEntry>, i: int, a: Seq<char>)
    requires
        unique_addresses(entries),
        0 <= i < entries.len(),
        entries[i].address@ == a,
    ensures
        position(entries, a) == Some(i),
{
    assert(has_address(entries, a));
    let k = choose|k: int| 0 <= k < entries.len() && (#[trigger] entries[k]).address@ == a;
    assert(entries[k].address@ == entries[i].address@);
}

/// A pass gives a slot to an address exactly when the address is registered
/// and its icon resolves or it already had a slot; no slot ever exists for an
/// unregistered address. So where no shown item has lost its icon, the shown
/// addresses are exactly the registered ones whose icon resolves.
pub proof fn lemma_render_shows_resolving(m: TrayModel, available: Seq<Seq<char>>)
    requires
        m.wf(),
    ensures
        rendered_model(m, available).wf(),
        forall|a: Seq<char>| #[trigger] rendered_model(m, available).displays(a) ==> has_address(m.entries, a),
        forall|a: Seq<char>|
            #[trigger] rendered_model(m, available).displays(a) <==> (resolves(m, a, available) || m.displays(a)),
        (forall|a: Seq<char>| #[trigger] m.displays(a) ==> resolves(m, a, available)) ==> forall|a: Seq<char>|
            #[trigger] rendered_model(m, available).displays(a) <==> resolves(m, a, available),
{
    let r = rendered_model(m, available);
    assert(r.shown.len() == r.entries.len());
    assert forall|a: Seq<char>| #[trigger] r.displays(a) <==> (resolves(m, a, available) || m.displays(a)) by {
        if let Some(i) = position(m.entries, a) {
            assert(0 <= i < m.entries.len() && m.entries[i].address@ == a);
            assert(r.shown[i] == rendered(m.entries[i], m.shown[i], available));
        }
    }
    assert forall|a: Seq<char>| #[trigger] r.displays(a) implies has_address(m.entries, a) by {
        assert(position(m.entries, a) is Some);
    }
}

/// Rendering an entry twice from the same state gives what rendering it once
/// gives.
pub proof fn lemma_rendered_idempotent(e: TrayEntry, prev: Option<ShownView>, available: Seq<Seq<char>>)
    ensures
        rendered(e, rendered(e, prev, available), available) == rendered(e, prev, available),
{
}

/// Applying the same update twice in a row, with a pass after each, leaves
/// the tray exactly as applying it once does: no second slot, no second copy
/// of any menu entry.
pub proof fn lemma_update_twice_same_as_once(
    m: TrayModel,
    address: String,
    item: TrayItem,
    menu: Option<Vec<MenuNode>>,
    available: Seq<Seq<char>>,
)
    requires
        m.wf(),
    ensures
        ({
            let ev = TrayEvent::Update { address, item, menu };
            let once = rendered_model(applied(m, ev), available);
            rendered_model(applied(once, ev), available) == once
        }),
{
    let ev = TrayEvent::Update { address, item, menu };
    let e = TrayEntry { address, item, menu };
    let a1 = applied(m, ev);
    lemma_applied_wf(m, ev);
    let i: int = match position(m.entries, address@) {
        Some(k) => k,
        None => m.entries.len() as int,
    };
    if let Some(k) = position(m.entries, address@) {
        assert(0 <= k < m.entries.len() && m.entries[k].address@ == address@);
    }
    assert(a1.entries[i] == e);
    lemma_position_at(a1.entries, i, address@);
    let once = rendered_model(a1, available);
    lemma_render_shows_resolving(a1, available);
    let a2 = applied(once, ev);
    assert(a2.entries =~= once.entries);
    assert(a2.shown == once.shown);
    let twice = rendered_model(a2, available);
    assert forall|j: int| 0 <= j < twice.shown.len() implies twice.shown[j] == once.shown[j] by {
        lemma_rendered_idempotent(a1.entries[j], a1.shown[j], available);
    }
    assert(twice.shown =~= once.shown);
}

/// The state after each event of `evs` in turn, each applied and followed by
/// a pass.
pub open spec fn processed(m: TrayModel, evs: Seq<TrayEvent>, available: Seq<Seq<char>>) -> TrayModel
    decreases evs.len(),
{
    if evs.len() == 0 {
        m
    } else {
        rendered_model(applied(processed(m, evs.drop_last(), available), evs.last()), available)
    }
}

/// For every sequence of events processed from a well-formed state, slots
/// exist only for registered addresses, and after at least one pass every
/// registered address whose icon resolves has one.
pub proof fn lemma_processed_shows_resolving(m: TrayModel, evs: Seq<TrayEvent>, available: Seq<Seq<char>>)
    requires
        m.wf(),
        forall|a: Seq<char>| #[trigger] m.displays(a) ==> has_address(m.entries, a),
    ensures
        processed(m, evs, available).wf(),
        forall|a: Seq<char>| #[trigger] processed(m, evs, available).displays(a) ==> has_address(
            processed(m, evs, available).entries,
            a,
        ),
        evs.len() > 0 ==> forall|a: Seq<char>|
            resolves(processed(m, evs, available), a, available) ==> #[trigger] processed(m, evs, available).displays(a),
    decreases evs.len(),
{
    if evs.len() > 0 {
        let before = processed(m, evs.drop_last(), available);
        lemma_processed_shows_resolving(m, evs.drop_last(), available);
        let a1 = applied(before, evs.last());
        lemma_applied_wf(before, evs.last());
        lemma_render_shows_resolving(a1, available);
    }
}

} // verus!

use vstd::prelude::*;

verus! {

/// The two kinds of menu entry an item can publish.
#[derive(Clone, Copy, Debug, PartialEq, Eq, Structural)]
pub enum MenuKind {
    Separator,
    Standard,
}

/// One entry of an item's menu, with its nested entries in display order.
#[derive(Debug, PartialEq, Eq)]
pub struct MenuNode {
    pub id: i32,
    pub kind: MenuKind,
    pub label: String,
    pub children: Vec<MenuNode>,
}

/// The message sent back to an item when one of its menu entries is chosen.
#[derive(Debug, PartialEq, Eq)]
pub struct Command {
    pub submenu_id: i32,
    pub menu_path: String,
    pub notifier_address: String,
}

/// A menu entry ready for display: a divider or a labelled entry, the command
/// it sends when activated, and its nested entries when it has any.
#[derive(Debug, PartialEq, Eq)]
pub struct DisplayNode {
    pub kind: MenuKind,
    pub label: String,
    pub action: Option<Command>,
    pub submenu: Option<Vec<DisplayNode>>,
}

pub struct MenuView {
    pub id: i32,
    pub kind: MenuKind,
    pub label: Seq<char>,
    pub children: Seq<MenuView>,
}

pub struct CommandView {
    pub submenu_id: i32,
    pub menu_path: Seq<char>,
    pub notifier_address: Seq<char>,
}

pub struct DisplayView {
    pub kind: MenuKind,
    pub label: Seq<char>,
    pub action: Option<CommandView>,
    pub submenu: Option<Seq<DisplayView>>,
}

pub open spec fn menu_view(n: MenuNode) -> MenuView
    decreases n,
{
    MenuView { id: n.id, kind: n.kind, label: n.label@, children: menu_views(n.children@) }
}

pub open spec fn menu_views(ns: Seq<MenuNode>) -> Seq<MenuView>
    decreases ns,
{
    if ns.len() == 0 {
        Seq::empty()
    } else {
        menu_views(ns.drop_last()).push(menu_view(ns.last()))
    }
}

pub open spec fn command_view(c: Command) -> CommandView {
    CommandView {
        submenu_id: c.submenu_id,
        menu_path: c.menu_path@,
        notifier_address: c.notifier_address@,
    }
}

pub open spec fn option_command_view(c: Option<Command>) -> Option<CommandView> {
    match c {
        Some(c) => Some(command_view(c)),
        None => None,
    }
}

pub open spec fn display_view(d: DisplayNode) -> DisplayView
    decreases d,
{
    DisplayView {
        kind: d.kind,
        label: d.label@,
        action: option_command_view(d.action),
        submenu: match d.submenu {
            Some(v) => Some(display_views(v@)),
            None => None,
        },
    }
}

pub open spec fn display_views(ds: Seq<DisplayNode>) -> Seq<DisplayView>
    decreases ds,
{
    if ds.len() == 0 {
        Seq::empty()
    } else {
        display_views(ds.drop_last()).push(display_view(ds.last()))
    }
}

/// The displayed form of menu entry `m` of the item at `addr` whose menu
/// object is `mpath`: a standard entry sends its own id, a divider sends
/// nothing, and nested entries are attached only when there are some.
pub open spec fn built(m: MenuView, addr: Seq<char>, mpath: Seq<char>) -> DisplayView
    decreases m,
{
    DisplayView {
        kind: m.kind,
        label: m.label,
        action: match m.kind {
            MenuKind::Standard => Some(
                CommandView { submenu_id: m.id, menu_path: mpath, notifier_address: addr },
            ),
            MenuKind::Separator => None,
        },
        submenu: if m.children.len() > 0 {
            Some(built_all(m.children, addr, mpath))
        } else {
            None
        },
    }
}

/// Each entry of `ms` in its displayed form, in the same order.
pub open spec fn built_all(ms: Seq<MenuView>, addr: Seq<char>, mpath: Seq<char>) -> Seq<DisplayView>
    decreases ms,
{
    if ms.len() == 0 {
        Seq::empty()
    } else {
        built_all(ms.drop_last(), addr, mpath).push(built(ms.last(), addr, mpath))
    }
}

/// The menu entry reached from the list `ms` by following child indices `p`.
pub open spec fn menu_at(ms: Seq<MenuView>, p: Seq<int>) -> Option<MenuView>
    decreases p.len(),
{
    if p.len() == 0 || !(0 <= p[0] < ms.len()) {
        None
    } else if p.len() == 1 {
        Some(ms[p[0]])
    } else {
        menu_at(ms[p[0]].children, p.drop_first())
    }
}

/// The displayed entry reached from the list `ds` by following child indices `p`.
pub open spec fn node_at(ds: Seq<DisplayView>, p: Seq<int>) -> Option<DisplayView>
    decreases p.len(),
{
    if p.len() == 0 || !(0 <= p[0] < ds.len()) {
        None
    } else if p.len() == 1 {
        Some(ds[p[0]])
    } else {
        match ds[p[0]].submenu {
            Some(sub) => node_at(sub, p.drop_first()),
            None => None,
        }
    }
}

/// The command that activating the entry at `p` sends, if there is one.
pub open spec fn action_at(ds: Seq<DisplayView>, p: Seq<int>) -> Option<CommandView> {
    match node_at(ds, p) {
        Some(d) => d.action,
        None => None,
    }
}

pub open spec fn index_path(p: Seq<usize>) -> Seq<int> {
    p.map_values(|k: usize| k as int)
}

pub proof fn lemma_menu_views_index(ns: Seq<MenuNode>)
    ensures
        menu_views(ns).len() == ns.len(),
        forall|i: int| 0 <= i < ns.len() ==> #[trigger] menu_views(ns)[i] == menu_view(ns[i]),
    decreases ns.len(),
{
    if ns.len() > 0 {
        lemma_menu_views_index(ns.drop_last());
    }
}

pub proof fn lemma_display_views_index(ds: Seq<DisplayNode>)
    ensures
        display_views(ds).len() == ds.len(),
        forall|i: int| 0 <= i < ds.len() ==> #[trigger] display_views(ds)[i] == display_view(ds[i]),
    decreases ds.len(),
{
    if ds.len() > 0 {
        lemma_display_views_index(ds.drop_last());
    }
}

pub proof fn lemma_built_all_index(ms: Seq<MenuView>, addr: Seq<char>, mpath: Seq<char>)
    ensures
        built_all(ms, addr, mpath).len() == ms.len(),
        forall|i: int| 0 <= i < ms.len() ==> #[trigger] built_all(ms, addr, mpath)[i] == built(ms[i], addr, mpath),
    decreases ms.len(),
{
    if ms.len() > 0 {
        lemma_built_all_index(ms.drop_last(), addr, mpath);
    }
}

impl Command {
    /// An equal, independently owned command.
    pub fn duplicate(&self) -> (r: Command)
        ensures
            command_view(r) == command_view(*self),
    {
        Command {
            submenu_id: self.submenu_id,
            menu_path: self.menu_path.clone(),
            notifier_address: self.notifier_address.clone(),
        }
    }
}

/// Builds the displayed form of one menu entry and, recursively, of its
/// nested entries; a standard entry carries the command naming its own id.
pub fn build_node(node: &MenuNode, addr: &String, mpath: &String) -> (r: DisplayNode)
    ensures
        display_view(r) == built(menu_view(*node), addr@, mpath@),
    decreases node,
{
    let mut kids: Vec<DisplayNode> = Vec::new();
    let mut i: usize = 0;
    while i < node.children.len()
        invariant
            i <= node.children.len(),
            kids@.len() == i,
            forall|j: int| 0 <= j < i ==> #[trigger] display_view(kids@[j]) == built(
                menu_view(node.children@[j]), addr@, mpath@),
        decreases node.children.len() - i,
    {
        let c = build_node(&node.children[i], addr, mpath);
        kids.push(c);
        i = i + 1;
    }
    let action = match node.kind {
        MenuKind::Standard => Some(
            Command { submenu_id: node.id, menu_path: mpath.clone(), notifier_address: addr.clone() },
        ),
        MenuKind::Separator => None,
    };
    let has_children = node.children.len() > 0;
    let r = DisplayNode {
        kind: node.kind,
        label: node.label.clone(),
        action,
        submenu: if has_children { Some(kids) } else { None },
    };
    proof {
        let mv = menu_view(*node);
        lemma_menu_views_index(node.children@);
        lemma_display_views_index(kids@);
        lemma_built_all_index(mv.children, addr@, mpath@);
        assert(display_views(kids@) =~= built_all(mv.children, addr@, mpath@));
    }
    r
}

/// Builds the displayed form of a list of menu entries, in order.
pub fn build_menu(nodes: &Vec<MenuNode>, addr: &String, mpath: &String) -> (r: Vec<DisplayNode>)
    ensures
        display_views(r@) == built_all(menu_views(nodes@), addr@, mpath@),
{
    let mut out: Vec<DisplayNode> = Vec::new();
    let mut i: usize = 0;
    while i < nodes.len()
        invariant
            i <= nodes.len(),
            out@.len() == i,
            forall|j: int| 0 <= j < i ==> #[trigger] display_view(out@[j]) == built(
                menu_view(nodes@[j]), addr@, mpath@),
        decreases nodes.len() - i,
    {
        let c = build_node(&nodes[i], addr, mpath);
        out.push(c);
        i = i + 1;
    }
    proof {
        lemma_menu_views_index(nodes@);
        lemma_display_views_index(out@);
        lemma_built_all_index(menu_views(nodes@), addr@, mpath@);
        assert(display_views(out@) =~= built_all(menu_views(nodes@), addr@, mpath@));
    }
    out
}

/// Activates the displayed entry reached from `nodes` by the child indices in
/// `path`, giving the command it sends: nothing for a divider, and nothing
/// when the path leads nowhere.
pub fn activate_at(nodes: &Vec<DisplayNode>, path: &Vec<usize>) -> (r: Option<Command>)
    ensures
        option_command_view(r) == action_at(display_views(nodes@), index_path(path@)),
{
    let ghost p = index_path(path@);
    if path.len() == 0 {
        return None;
    }
    let mut cur: &Vec<DisplayNode> = nodes;
    let mut k: usize = 0;
    assert(p.subrange(0, p.len() as int) =~= p);
    while k + 1 < path.len()
        invariant
            k + 1 <= path.len(),
            p == index_path(path@),
            node_at(display_views(nodes@), p) == node_at(display_views(cur@), p.subrange(k as int, p.len() as int)),
        decreases path.len() - k,
    {
        let idx = path[k];
        proof {
            lemma_display_views_index(cur@);
            let q = p.subrange(k as int, p.len() as int);
            assert(q.drop_first() =~= p.subrange(k + 1, p.len() as int));
        }
        if idx >= cur.len() {
            return None;
        }
        match &cur[idx].submenu {
            Some(sub) => {
                cur = sub;
            },
            None => {
                return None;
            },
        }
        k = k + 1;
    }
    let idx = path[k];
    proof {
        lemma_display_views_index(cur@);
    }
    if idx >= cur.len() {
        return None;
    }
    match &cur[idx].action {
        Some(c) => Some(c.duplicate()),
        None => None,
    }
}

/// Activating any standard entry of a built menu sends exactly one command,
/// and that command carries the entry's own id together with the item's
/// address and menu object; the entry reached in the displayed menu is there
/// exactly when it is there in the source menu.
pub proof fn lemma_activation_sends_own_id(
    ms: Seq<MenuView>,
    addr: Seq<char>,
    mpath: Seq<char>,
    p: Seq<int>,
)
    ensures
        node_at(built_all(ms, addr, mpath), p) is Some <==> menu_at(ms, p) is Some,
        menu_at(ms, p) is Some && menu_at(ms, p)->0.kind == MenuKind::Standard ==> action_at(
            built_all(ms, addr, mpath),
            p,
        ) == Some(
            CommandView { submenu_id: menu_at(ms, p)->0.id, menu_path: mpath, notifier_address: addr },
        ),
    decreases p.len(),
{
    lemma_built_all_index(ms, addr, mpath);
    if p.len() > 1 && 0 <= p[0] < ms.len() {
        let m = ms[p[0]];
        lemma_activation_sends_own_id(m.children, addr, mpath, p.drop_first());
        if m.children.len() == 0 {
            assert(menu_at(m.children, p.drop_first()) is None);
        }
    }
}

/// One menu entry of an item, on its way to display.
#[derive(Debug, PartialEq, Eq)]
pub struct StatusNotifierWrapper {
    pub menu: MenuNode,
}

impl StatusNotifierWrapper {
    /// The displayed form of the wrapped entry for the item at
    /// `notifier_address` whose menu object is `menu_path`.
    pub fn into_menu_item(self, notifier_address: String, menu_path: String) -> (r: DisplayNode)
        ensures
            display_view(r) == built(menu_view(self.menu), notifier_address@, menu_path@),
    {
        build_node(&self.menu, &notifier_address, &menu_path)
    }
}

} // verus!

//! Dependency injection tree display, with scope, caching and cycle marks.
use vstd::prelude::*;
use crate::output::mode::{mode_uses_ansi, OutputMode};
use crate::output::shutdown_progress::{fg, reset_seq, ANSI_RESET};
use crate::output::themes::{fastapi_palette, repeat_spec, FastApiTheme};
use crate::text::{join_strings, join_with, push_line, push_str, repeat_char, strings_view};

verus! {

/// A dependency and the dependencies it needs.
#[derive(Debug)]
pub struct DependencyNode {
    /// Display name.
    pub name: String,
    /// Child dependencies.
    pub children: Vec<DependencyNode>,
    /// Cached for the request.
    pub cached: bool,
    /// Scope label.
    pub scope: Option<String>,
    /// A note.
    pub note: Option<String>,
    /// This node closes a cycle.
    pub cycle: bool,
}

pub open spec fn opt_view(o: Option<String>) -> Option<Seq<char>> {
    match o {
        Some(s) => Some(s@),
        None => None,
    }
}

impl DependencyNode {
    /// A node named `name` with no children or marks.
    pub fn new(name: &str) -> (n: Self)
        ensures
            n.name@ == name@,
            n.children@.len() == 0,
            !n.cached,
            n.scope is None,
            n.note is None,
            !n.cycle,
    {
        DependencyNode {
            name: String::from_str(name),
            children: Vec::new(),
            cached: false,
            scope: None,
            note: None,
            cycle: false,
        }
    }

    /// Adds a child.
    pub fn child(self, child: DependencyNode) -> (n: Self)
        ensures
            n == (DependencyNode { children: n.children, ..self }),
            n.children@ == self.children@.push(child),
    {
        let mut children = self.children;
        children.push(child);
        DependencyNode { children, ..self }
    }

    /// Replaces the children.
    pub fn children(self, children: Vec<DependencyNode>) -> (n: Self)
        ensures
            n == (DependencyNode { children, ..self }),
    {
        DependencyNode { children, ..self }
    }

    /// Marks the node cached.
    pub fn cached(self) -> (n: Self)
        ensures
            n == (DependencyNode { cached: true, ..self }),
    {
        DependencyNode { cached: true, ..self }
    }

    /// Sets the scope label.
    pub fn scope(self, scope: &str) -> (n: Self)
        ensures
            n == (DependencyNode { scope: n.scope, ..self }),
            opt_view(n.scope) == Some(scope@),
    {
        DependencyNode { scope: Some(String::from_str(scope)), ..self }
    }

    /// Sets the note.
    pub fn note(self, note: &str) -> (n: Self)
        ensures
            n == (DependencyNode { note: n.note, ..self }),
            opt_view(n.note) == Some(note@),
    {
        DependencyNode { note: Some(String::from_str(note)), ..self }
    }

    /// Marks the node as closing a cycle.
    pub fn cycle(self) -> (n: Self)
        ensures
            n == (DependencyNode { cycle: true, ..self }),
    {
        DependencyNode { cycle: true, ..self }
    }
}

/// Renders a dependency tree.
#[derive(Debug)]
pub struct DependencyTreeDisplay {
    mode: OutputMode,
    theme: FastApiTheme,
    roots: Vec<DependencyNode>,
    show_cached: bool,
    show_scopes: bool,
    show_notes: bool,
    title: Option<String>,
    cycle_paths: Vec<Vec<String>>,
}

/// The settings of a [`DependencyTreeDisplay`].
pub struct TreeDisplayView {
    pub mode: OutputMode,
    pub theme: FastApiTheme,
    pub roots: Seq<DependencyNode>,
    pub show_cached: bool,
    pub show_scopes: bool,
    pub show_notes: bool,
    pub title: Option<Seq<char>>,
    pub cycle_paths: Seq<Seq<Seq<char>>>,
}

pub open spec fn paths_view(p: Seq<Vec<String>>) -> Seq<Seq<Seq<char>>> {
    p.map_values(|v: Vec<String>| strings_view(v@))
}

impl View for DependencyTreeDisplay {
    type V = TreeDisplayView;

    closed spec fn view(&self) -> TreeDisplayView {
        TreeDisplayView {
            mode: self.mode,
            theme: self.theme,
            roots: self.roots@,
            show_cached: self.show_cached,
            show_scopes: self.show_scopes,
            show_notes: self.show_notes,
            title: opt_view(self.title),
            cycle_paths: paths_view(self.cycle_paths@),
        }
    }
}

/// The branch, last-branch, continuation and spacer glyphs of a mode.
pub open spec fn glyphs(m: OutputMode) -> (Seq<char>, Seq<char>, Seq<char>, Seq<char>) {
    if m == OutputMode::Plain {
        ("+-"@, "\\-"@, "| "@, "  "@)
    } else {
        ("\u{251C}\u{2500}"@, "\u{2514}\u{2500}"@, "\u{2502} "@, "  "@)
    }
}

/// A label part, colored when the mode uses ANSI.
pub open spec fn styled(d: TreeDisplayView, c: crate::output::themes::Color, text: Seq<char>) -> Seq<char> {
    if mode_uses_ansi(d.mode) { fg(c) + text + reset_seq() } else { text }
}

/// The parts of a node's label, in order.
pub open spec fn label_parts(d: TreeDisplayView, n: DependencyNode) -> Seq<Seq<char>> {
    seq![styled(d, d.theme.primary, n.name@)]
        + (if d.show_cached && n.cached { seq![styled(d, d.theme.muted, "[cached]"@)] } else { Seq::empty() })
        + (match (d.show_scopes, opt_view(n.scope)) {
            (true, Some(s)) => seq![styled(d, d.theme.secondary, "(scope: "@ + s + ")"@)],
            _ => Seq::empty(),
        })
        + (if n.cycle { seq![styled(d, d.theme.error, "[cycle]"@)] } else { Seq::empty() })
        + (match (d.show_notes, opt_view(n.note)) {
            (true, Some(s)) => seq!["- "@ + s],
            _ => Seq::empty(),
        })
}

/// Without ANSI, a node's label is its name, then `[cached]` when cached
/// nodes are shown and it is cached, `(scope: s)` when scopes are shown and
/// it has one, `[cycle]` when it closes a cycle, and `- note` when notes are
/// shown and it has one, in that order.
pub proof fn lemma_plain_label(d: TreeDisplayView, n: DependencyNode)
    requires
        !mode_uses_ansi(d.mode),
    ensures
        label_parts(d, n) == seq![n.name@]
            + (if d.show_cached && n.cached { seq!["[cached]"@] } else { Seq::<Seq<char>>::empty() })
            + (match (d.show_scopes, opt_view(n.scope)) {
                (true, Some(s)) => seq!["(scope: "@ + s + ")"@],
                _ => Seq::<Seq<char>>::empty(),
            })
            + (if n.cycle { seq!["[cycle]"@] } else { Seq::<Seq<char>>::empty() })
            + (match (d.show_notes, opt_view(n.note)) {
                (true, Some(s)) => seq!["- "@ + s],
                _ => Seq::<Seq<char>>::empty(),
            }),
{
}

/// The lines of a node and its descendants, drawn below `prefix`.
pub open spec fn node_lines(d: TreeDisplayView, prefix: Seq<char>, n: DependencyNode, is_last: bool) -> Seq<Seq<char>>
    decreases n, n.children@.len() + 1,
{
    let g = glyphs(d.mode);
    let connector = if is_last { g.1 } else { g.0 };
    let next = prefix + (if is_last { g.3 } else { g.2 });
    seq![prefix + connector + " "@ + join_with(label_parts(d, n), " "@)] + kids_lines(d, next, n, n.children@.len() as int)
}

/// The lines of the first `k` children of `n`.
pub open spec fn kids_lines(d: TreeDisplayView, prefix: Seq<char>, n: DependencyNode, k: int) -> Seq<Seq<char>>
    decreases n, k,
{
    if k <= 0 || k > n.children@.len() {
        Seq::empty()
    } else {
        kids_lines(d, prefix, n, k - 1) + node_lines(d, prefix, n.children@[k - 1], k == n.children@.len())
    }
}

/// The lines of the first `k` roots.
pub open spec fn roots_lines(d: TreeDisplayView, roots: Seq<DependencyNode>, k: int) -> Seq<Seq<char>>
    decreases k,
{
    if k <= 0 || k > roots.len() {
        Seq::empty()
    } else {
        roots_lines(d, roots, k - 1) + node_lines(d, ""@, roots[k - 1], k == roots.len())
    }
}

pub open spec fn cycle_lines(d: TreeDisplayView) -> Seq<Seq<char>> {
    if d.cycle_paths.len() == 0 {
        Seq::empty()
    } else {
        seq![Seq::empty(), styled(d, d.theme.error, "Cycles detected:"@)]
            + d.cycle_paths.map_values(|p: Seq<Seq<char>>| "  "@ + join_with(p, " -> "@))
    }
}

/// The rendered tree.
pub open spec fn tree_text(d: TreeDisplayView) -> Seq<char> {
    if d.roots.len() == 0 {
        "No dependencies registered."@
    } else {
        let t = match d.title {
            Some(t) => seq![t, repeat_spec('-', (vstd::utf8::encode_utf8(t).len() as usize) as nat)],
            None => Seq::empty(),
        };
        join_with(t + roots_lines(d, d.roots, d.roots.len() as int) + cycle_lines(d), "\n"@)
    }
}

impl DependencyTreeDisplay {
    /// A display of `roots` in `mode`, showing every mark, titled "Dependency Tree".
    pub fn new(mode: OutputMode, roots: Vec<DependencyNode>) -> (d: Self)
        ensures
            d@ == (TreeDisplayView {
                mode,
                theme: fastapi_palette(),
                roots: roots@,
                show_cached: true,
                show_scopes: true,
                show_notes: true,
                title: Some("Dependency Tree"@),
                cycle_paths: Seq::empty(),
            }),
    {
        let d = DependencyTreeDisplay {
            mode,
            theme: FastApiTheme::fastapi(),
            roots,
            show_cached: true,
            show_scopes: true,
            show_notes: true,
            title: Some(String::from_str("Dependency Tree")),
            cycle_paths: Vec::new(),
        };
        assert(paths_view(d.cycle_paths@) =~= Seq::<Seq<Seq<char>>>::empty());
        d
    }

    /// Sets the theme.
    pub fn theme(self, theme: FastApiTheme) -> (d: Self)
        ensures
            d@ == (TreeDisplayView { theme, ..self@ }),
    {
        DependencyTreeDisplay { theme, ..self }
    }

    /// Hides the cached marks.
    pub fn hide_cached(self) -> (d: Self)
        ensures
            d@ == (TreeDisplayView { show_cached: false, ..self@ }),
    {
        DependencyTreeDisplay { show_cached: false, ..self }
    }

    /// Hides the scope labels.
    pub fn hide_scopes(self) -> (d: Self)
        ensures
            d@ == (TreeDisplayView { show_scopes: false, ..self@ }),
    {
        DependencyTreeDisplay { show_scopes: false, ..self }
    }

    /// Hides the notes.
    pub fn hide_notes(self) -> (d: Self)
        ensures
            d@ == (TreeDisplayView { show_notes: false, ..self@ }),
    {
        DependencyTreeDisplay { show_notes: false, ..self }
    }

    /// Sets the title (`None` for no title).
    pub fn title(self, title: Option<String>) -> (d: Self)
        ensures
            d@ == (TreeDisplayView { title: opt_view(title), ..self@ }),
    {
        DependencyTreeDisplay { title, ..self }
    }

    /// Adds a cycle path to the summary; an empty path is ignored.
    pub fn with_cycle_path(self, path: Vec<String>) -> (d: Self)
        ensures
            d@ == (TreeDisplayView {
                cycle_paths: if path@.len() == 0 { self@.cycle_paths } else { self@.cycle_paths.push(strings_view(path@)) },
                ..self@
            }),
    {
        let mut paths = self.cycle_paths;
        if path.len() > 0 {
            let ghost before = paths_view(paths@);
            let ghost pv = strings_view(path@);
            paths.push(path);
            assert(paths_view(paths@) =~= before.push(pv));
        }
        DependencyTreeDisplay { cycle_paths: paths, ..self }
    }

    fn styled_text(&self, c: crate::output::themes::Color, text: &str) -> (s: String)
        ensures
            s@ == styled(self@, c, text@),
    {
        let mut s = String::new();
        if self.mode.uses_ansi() {
            let a = c.to_ansi_fg();
            push_str(&mut s, a.as_str());
            push_str(&mut s, text);
            push_str(&mut s, ANSI_RESET);
            proof {
                reveal_strlit("\x1b[0m");
            }
            assert(s@ =~= fg(c) + text@ + reset_seq());
        } else {
            push_str(&mut s, text);
            assert(s@ =~= text@);
        }
        s
    }

    fn label(&self, node: &DependencyNode) -> (s: String)
        ensures
            s@ == join_with(label_parts(self@, *node), " "@),
    {
        let mut parts: Vec<String> = Vec::new();
        assert(strings_view(parts@) =~= Seq::<Seq<char>>::empty());
        push_line(&mut parts, self.styled_text(self.theme.primary, node.name.as_str()));
        if self.show_cached && node.cached {
            push_line(&mut parts, self.styled_text(self.theme.muted, "[cached]"));
        }
        let ghost p1 = strings_view(parts@);
        if self.show_scopes {
            match &node.scope {
                Some(scope) => {
                    let mut t = String::new();
                    push_str(&mut t, "(scope: ");
                    push_str(&mut t, scope.as_str());
                    push_str(&mut t, ")");
                    push_line(&mut parts, self.styled_text(self.theme.secondary, t.as_str()));
                },
                None => {},
            }
        }
        let ghost p2 = strings_view(parts@);
        if node.cycle {
            push_line(&mut parts, self.styled_text(self.theme.error, "[cycle]"));
        }
        let ghost p3 = strings_view(parts@);
        if self.show_notes {
            match &node.note {
                Some(note) => {
                    let mut t = String::new();
                    push_str(&mut t, "- ");
                    push_str(&mut t, note.as_str());
                    push_line(&mut parts, t);
                },
                None => {},
            }
        }
        assert(strings_view(parts@) =~= label_parts(self@, *node));
        join_strings(&parts, " ")
    }

    fn render_node(&self, lines: &mut Vec<String>, prefix: &str, node: &DependencyNode, is_last: bool)
        ensures
            strings_view(final(lines)@) == strings_view(old(lines)@) + node_lines(self@, prefix@, *node, is_last),
        decreases node, node.children@.len() + 1,
    {
        let plain = !self.mode.uses_ansi();
        let connector = if is_last {
            if plain { "\\-" } else { "\u{2514}\u{2500}" }
        } else {
            if plain { "+-" } else { "\u{251C}\u{2500}" }
        };
        let cont = if is_last { "  " } else if plain { "| " } else { "\u{2502} " };
        let mut line = String::new();
        push_str(&mut line, prefix);
        push_str(&mut line, connector);
        push_str(&mut line, " ");
        let label = self.label(node);
        push_str(&mut line, label.as_str());
        push_line(lines, line);
        let mut next = String::new();
        push_str(&mut next, prefix);
        push_str(&mut next, cont);
        let ghost after_head = strings_view(lines@);
        let n = node.children.len();
        let mut i: usize = 0;
        while i < n
            invariant
                i <= n == node.children@.len(),
                strings_view(lines@) == after_head + kids_lines(self@, next@, *node, i as int),
            decreases n - i,
        {
            self.render_node(lines, next.as_str(), &node.children[i], i + 1 == n);
            i += 1;
        }
        assert(strings_view(lines@) =~= strings_view(old(lines)@) + node_lines(self@, prefix@, *node, is_last));
    }

    /// Renders the tree as lines joined by newlines.
    pub fn render(&self) -> (s: String)
        ensures
            s@ == tree_text(self@),
    {
        if self.roots.len() == 0 {
            return String::from_str("No dependencies registered.");
        }
        let mut lines: Vec<String> = Vec::new();
        assert(strings_view(lines@) =~= Seq::<Seq<char>>::empty());
        match &self.title {
            Some(title) => {
                push_line(&mut lines, title.clone());
                let n = title.as_str().len();
                push_line(&mut lines, repeat_char('-', n));
            },
            None => {},
        }
        let ghost head = strings_view(lines@);
        let n = self.roots.len();
        let mut i: usize = 0;
        while i < n
            invariant
                i <= n == self@.roots.len(),
                strings_view(lines@) == head + roots_lines(self@, self@.roots, i as int),
            decreases n - i,
        {
            self.render_node(&mut lines, "", &self.roots[i], i + 1 == n);
            proof {
                reveal_strlit("");
            }
            i += 1;
        }
        let ghost body = strings_view(lines@);
        if self.cycle_paths.len() > 0 {
            push_line(&mut lines, String::new());
            push_line(&mut lines, self.styled_text(self.theme.error, "Cycles detected:"));
            let ghost c0 = strings_view(lines@);
            let mut k: usize = 0;
            while k < self.cycle_paths.len()
                invariant
                    k <= self.cycle_paths.len(),
                    strings_view(lines@) == c0 + self@.cycle_paths.map_values(|p: Seq<Seq<char>>| "  "@ + join_with(p, " -> "@)).take(k as int),
                decreases self.cycle_paths.len() - k,
            {
                let mut t = String::new();
                push_str(&mut t, "  ");
                let j = join_strings(&self.cycle_paths[k], " -> ");
                push_str(&mut t, j.as_str());
                push_line(&mut lines, t);
                k += 1;
                assert(self@.cycle_paths[k - 1] == strings_view(self.cycle_paths@[k - 1]@));
                assert(self@.cycle_paths.map_values(|p: Seq<Seq<char>>| "  "@ + join_with(p, " -> "@)).take(k as int) =~= self@.cycle_paths.map_values(|p: Seq<Seq<char>>| "  "@ + join_with(p, " -> "@)).take(k - 1).push("  "@ + join_with(self@.cycle_paths[k - 1], " -> "@)));
            }
            assert(self@.cycle_paths.map_values(|p: Seq<Seq<char>>| "  "@ + join_with(p, " -> "@)).take(self.cycle_paths.len() as int) =~= self@.cycle_paths.map_values(|p: Seq<Seq<char>>| "  "@ + join_with(p, " -> "@)));
        }
        assert(strings_view(lines@) =~= match self@.title {
            Some(t) => seq![t, repeat_spec('-', (vstd::utf8::encode_utf8(t).len() as usize) as nat)],
            None => Seq::empty(),
        } + roots_lines(self@, self@.roots, self@.roots.len() as int) + cycle_lines(self@));
        join_strings(&lines, "\n")
    }
}

} // verus!

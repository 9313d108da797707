//! Graceful shutdown progress: connection draining, in-flight work and cleanup.
use vstd::prelude::*;
use crate::output::mode::{mode_uses_ansi, OutputMode};
use crate::output::themes::{ansi_rgb, fastapi_palette, repeat_spec, Color, FastApiTheme};
use crate::text::{
    decimal, join_strings, join_with, push_decimal, push_line, push_str, repeat_char, strings_view,
};

verus! {

/// The escape that resets colors.
pub const ANSI_RESET: &'static str = "\x1b[0m";

pub open spec fn reset_seq() -> Seq<char> {
    seq!['\x1b', '[', '0', 'm']
}

/// A foreground color escape.
pub open spec fn fg(c: Color) -> Seq<char> {
    ansi_rgb("38"@, c)
}

/// Shutdown phase.
#[derive(Debug, Clone, Copy, PartialEq, Eq, Structural)]
pub enum ShutdownPhase {
    /// Draining connections.
    GracePeriod,
    /// Closing what is left after the grace period.
    ForceClose,
    /// Shutdown finished.
    Complete,
}

pub open spec fn phase_label(p: ShutdownPhase) -> Seq<char> {
    match p {
        ShutdownPhase::GracePeriod => "Grace Period"@,
        ShutdownPhase::ForceClose => "Force Close"@,
        ShutdownPhase::Complete => "Complete"@,
    }
}

pub open spec fn phase_color(p: ShutdownPhase, t: FastApiTheme) -> Color {
    match p {
        ShutdownPhase::GracePeriod => t.info,
        ShutdownPhase::ForceClose => t.error,
        ShutdownPhase::Complete => t.success,
    }
}

impl ShutdownPhase {
    /// The phase's label.
    pub fn label(self) -> (s: &'static str)
        ensures
            s@ == phase_label(self),
    {
        let s = match self {
            ShutdownPhase::GracePeriod => "Grace Period",
            ShutdownPhase::ForceClose => "Force Close",
            ShutdownPhase::Complete => "Complete",
        };
        s
    }

    fn color(self, theme: &FastApiTheme) -> (c: Color)
        ensures
            c == phase_color(self, *theme),
    {
        match self {
            ShutdownPhase::GracePeriod => theme.info,
            ShutdownPhase::ForceClose => theme.error,
            ShutdownPhase::Complete => theme.success,
        }
    }
}

/// A snapshot of shutdown progress.
#[derive(Debug, Clone)]
pub struct ShutdownProgress {
    pub phase: ShutdownPhase,
    pub total_connections: usize,
    pub drained_connections: usize,
    pub in_flight_requests: usize,
    pub background_tasks: usize,
    pub cleanup_done: usize,
    pub cleanup_total: usize,
    pub notes: Vec<String>,
}

impl ShutdownProgress {
    /// A snapshot in `phase` with nothing counted yet.
    pub fn new(phase: ShutdownPhase) -> (p: Self)
        ensures
            p.phase == phase,
            p.total_connections == 0,
            p.drained_connections == 0,
            p.in_flight_requests == 0,
            p.background_tasks == 0,
            p.cleanup_done == 0,
            p.cleanup_total == 0,
            p.notes@.len() == 0,
    {
        ShutdownProgress {
            phase,
            total_connections: 0,
            drained_connections: 0,
            in_flight_requests: 0,
            background_tasks: 0,
            cleanup_done: 0,
            cleanup_total: 0,
            notes: Vec::new(),
        }
    }

    /// Sets the drained and total connection counts.
    pub fn connections(self, drained: usize, total: usize) -> (p: Self)
        ensures
            p == (ShutdownProgress { drained_connections: drained, total_connections: total, ..self }),
    {
        ShutdownProgress { drained_connections: drained, total_connections: total, ..self }
    }

    /// Sets the in-flight request count.
    pub fn in_flight(self, in_flight: usize) -> (p: Self)
        ensures
            p == (ShutdownProgress { in_flight_requests: in_flight, ..self }),
    {
        ShutdownProgress { in_flight_requests: in_flight, ..self }
    }

    /// Sets the background task count.
    pub fn background_tasks(self, tasks: usize) -> (p: Self)
        ensures
            p == (ShutdownProgress { background_tasks: tasks, ..self }),
    {
        ShutdownProgress { background_tasks: tasks, ..self }
    }

    /// Sets the cleanup step counts.
    pub fn cleanup(self, done: usize, total: usize) -> (p: Self)
        ensures
            p == (ShutdownProgress { cleanup_done: done, cleanup_total: total, ..self }),
    {
        ShutdownProgress { cleanup_done: done, cleanup_total: total, ..self }
    }

    /// Adds a note line.
    pub fn note(self, note: &str) -> (p: Self)
        ensures
            strings_view(p.notes@) == strings_view(self.notes@).push(note@),
            p.phase == self.phase,
            p.total_connections == self.total_connections,
            p.drained_connections == self.drained_connections,
            p.in_flight_requests == self.in_flight_requests,
            p.background_tasks == self.background_tasks,
            p.cleanup_done == self.cleanup_done,
            p.cleanup_total == self.cleanup_total,
    {
        let mut notes = self.notes;
        push_line(&mut notes, String::from_str(note));
        ShutdownProgress { notes, ..self }
    }
}

/// Renders shutdown progress.
#[derive(Debug, Clone)]
pub struct ShutdownProgressDisplay {
    mode: OutputMode,
    theme: FastApiTheme,
    progress_width: usize,
    title: Option<String>,
}

/// The settings of a [`ShutdownProgressDisplay`].
pub struct ShutdownDisplayView {
    pub mode: OutputMode,
    pub theme: FastApiTheme,
    pub progress_width: usize,
    pub title: Option<Seq<char>>,
}

impl View for ShutdownProgressDisplay {
    type V = ShutdownDisplayView;

    closed spec fn view(&self) -> ShutdownDisplayView {
        ShutdownDisplayView {
            mode: self.mode,
            theme: self.theme,
            progress_width: self.progress_width,
            title: match self.title {
                Some(t) => Some(t@),
                None => None,
            },
        }
    }
}

/// The progress bar of `drained` out of `total` connections, `width` cells
/// wide (at least eight): filled cells round down.
pub open spec fn bar_filled(drained: usize, total: usize, width: usize) -> int {
    let w = if width < 8 { 8 } else { width as int };
    let prod = if drained * w > usize::MAX { usize::MAX as int } else { drained * w };
    let f = prod / (total as int);
    if f > w { w } else { f }
}

pub open spec fn bar_width(width: usize) -> int {
    if width < 8 { 8 } else { width as int }
}

pub open spec fn shutdown_bar_spec(drained: usize, total: usize, width: usize, mode: OutputMode, t: FastApiTheme) -> Seq<char> {
    if total == 0 {
        Seq::empty()
    } else {
        let filled = bar_filled(drained, total, width);
        let remaining = bar_width(width) - filled;
        let hashes = repeat_spec('#', filled as nat);
        let dashes = repeat_spec('-', remaining as nat);
        if mode_uses_ansi(mode) {
            seq!['['] + (if filled > 0 { fg(t.success) + hashes + reset_seq() } else { Seq::empty() }) + (if remaining
                > 0 { fg(t.muted) + dashes + reset_seq() } else { Seq::empty() }) + seq![']']
        } else {
            seq!['['] + hashes + dashes + seq![']']
        }
    }
}

/// A plain bar has exactly `width` cells (at least eight) between its brackets.
pub proof fn lemma_plain_bar_cells(drained: usize, total: usize, width: usize, t: FastApiTheme)
    requires
        total > 0,
    ensures
        shutdown_bar_spec(drained, total, width, OutputMode::Plain, t).len() == bar_width(width) + 2,
        0 <= bar_filled(drained, total, width) <= bar_width(width),
{
    let w = bar_width(width);
    let prod = if drained * w > usize::MAX { usize::MAX as int } else { drained * w };
    assert(prod >= 0) by (nonlinear_arith)
        requires
            prod == (if drained * w > usize::MAX { usize::MAX as int } else { drained * w }),
            w >= 8,
            drained >= 0,
    ;
    assert(prod / (total as int) >= 0) by (nonlinear_arith)
        requires
            prod >= 0,
            total > 0,
    ;
}

pub open spec fn phase_line(d: ShutdownDisplayView, p: ShutdownPhase) -> Seq<char> {
    if mode_uses_ansi(d.mode) {
        fg(d.theme.muted) + "Phase:"@ + reset_seq() + " "@ + fg(phase_color(p, d.theme)) + phase_label(p) + reset_seq()
    } else {
        "Phase: "@ + phase_label(p)
    }
}

pub open spec fn complete_line(d: ShutdownDisplayView) -> Seq<char> {
    if mode_uses_ansi(d.mode) {
        fg(d.theme.success) + "Shutdown complete"@ + reset_seq()
    } else {
        "Shutdown complete"@
    }
}

pub open spec fn opt_line(cond: bool, line: Seq<char>) -> Seq<Seq<char>> {
    if cond { seq![line] } else { Seq::empty() }
}

pub open spec fn note_lines(notes: Seq<Seq<char>>) -> Seq<Seq<char>> {
    notes.map_values(|n: Seq<char>| "Note: "@ + n)
}

pub open spec fn title_lines(d: ShutdownDisplayView) -> Seq<Seq<char>> {
    match d.title {
        Some(t) => seq![t, repeat_spec('-', (vstd::utf8::encode_utf8(t).len() as usize) as nat)],
        None => Seq::empty(),
    }
}

pub open spec fn connections_line(d: ShutdownDisplayView, p: ShutdownProgress) -> Seq<char> {
    if p.total_connections > 0 {
        "Connections: "@ + decimal(p.drained_connections as nat) + "/"@ + decimal(p.total_connections as nat)
            + " drained "@ + shutdown_bar_spec(p.drained_connections, p.total_connections, d.progress_width, d.mode, d.theme)
    } else {
        "Connections: none"@
    }
}

pub open spec fn count_lines(p: ShutdownProgress) -> Seq<Seq<char>> {
    opt_line(p.in_flight_requests > 0, "In-flight requests: "@ + decimal(p.in_flight_requests as nat))
        + opt_line(p.background_tasks > 0, "Background tasks: "@ + decimal(p.background_tasks as nat))
        + opt_line(p.cleanup_total > 0, "Cleanup: "@ + decimal(p.cleanup_done as nat) + "/"@ + decimal(p.cleanup_total as nat) + " steps"@)
}

/// The lines of a rendered snapshot.
pub open spec fn shutdown_lines(d: ShutdownDisplayView, p: ShutdownProgress) -> Seq<Seq<char>> {
    title_lines(d) + seq![phase_line(d, p.phase), connections_line(d, p)] + count_lines(p)
        + note_lines(strings_view(p.notes@)) + opt_line(p.phase == ShutdownPhase::Complete, complete_line(d))
}

impl ShutdownProgressDisplay {
    /// A display in `mode` with the default theme, a 24-cell bar and the
    /// title "Shutdown Progress".
    pub fn new(mode: OutputMode) -> (d: Self)
        ensures
            d@.mode == mode,
            d@.theme == fastapi_palette(),
            d@.progress_width == 24,
            d@.title == Some("Shutdown Progress"@),
    {
        ShutdownProgressDisplay {
            mode,
            theme: FastApiTheme::fastapi(),
            progress_width: 24,
            title: Some(String::from_str("Shutdown Progress")),
        }
    }

    /// Sets the theme.
    pub fn theme(self, theme: FastApiTheme) -> (d: Self)
        ensures
            d@ == (ShutdownDisplayView { theme, ..self@ }),
    {
        ShutdownProgressDisplay { theme, ..self }
    }

    /// Sets the bar width (at least eight).
    pub fn progress_width(self, width: usize) -> (d: Self)
        ensures
            d@ == (ShutdownDisplayView { progress_width: if width < 8 { 8 } else { width }, ..self@ }),
    {
        let w = if width < 8 { 8 } else { width };
        ShutdownProgressDisplay { progress_width: w, ..self }
    }

    /// Sets the title (`None` for no title).
    pub fn title(self, title: Option<String>) -> (d: Self)
        ensures
            d@ == (ShutdownDisplayView {
                title: match title {
                    Some(t) => Some(t@),
                    None => None,
                },
                ..self@
            }),
    {
        ShutdownProgressDisplay { title, ..self }
    }

    fn bar_counts(drained: usize, total: usize, width: usize) -> (r: (usize, usize))
        requires
            total > 0,
        ensures
            r.0 == bar_filled(drained, total, width),
            r.0 + r.1 == bar_width(width),
    {
        let width = if width < 8 { 8 } else { width };
        let prod: usize = if drained == 0 {
            0
        } else if width > usize::MAX / drained {
            assert(drained * width > usize::MAX) by (nonlinear_arith)
                requires
                    drained > 0,
                    width > usize::MAX / drained,
            ;
            usize::MAX
        } else {
            assert(drained * width <= usize::MAX) by (nonlinear_arith)
                requires
                    drained > 0,
                    width <= usize::MAX / drained,
            ;
            drained * width
        };
        let f = prod / total;
        let filled = if f > width { width } else { f };
        (filled, width - filled)
    }

    fn bar_segment(&self, color: Color, c: char, n: usize) -> (s: String)
        ensures
            s@ == (if mode_uses_ansi(self.mode) {
                if n > 0 { fg(color) + repeat_spec(c, n as nat) + reset_seq() } else { Seq::empty() }
            } else {
                repeat_spec(c, n as nat)
            }),
    {
        let mut s = String::new();
        if self.mode.uses_ansi() {
            if n > 0 {
                let a = color.to_ansi_fg();
                push_str(&mut s, a.as_str());
                let h = repeat_char(c, n);
                push_str(&mut s, h.as_str());
                push_str(&mut s, ANSI_RESET);
                proof {
                    reveal_strlit("\x1b[0m");
                }
                assert(s@ =~= fg(color) + repeat_spec(c, n as nat) + reset_seq());
            } else {
                assert(s@ =~= Seq::<char>::empty());
            }
        } else {
            let h = repeat_char(c, n);
            push_str(&mut s, h.as_str());
            assert(s@ =~= repeat_spec(c, n as nat));
        }
        s
    }

    fn bar(&self, drained: usize, total: usize) -> (s: String)
        ensures
            s@ == shutdown_bar_spec(drained, total, self.progress_width, self.mode, self.theme),
    {
        if total == 0 {
            return String::new();
        }
        let (filled, remaining) = Self::bar_counts(drained, total, self.progress_width);
        let mut bar = String::new();
        push_str(&mut bar, "[");
        let a = self.bar_segment(self.theme.success, '#', filled);
        push_str(&mut bar, a.as_str());
        let b = self.bar_segment(self.theme.muted, '-', remaining);
        push_str(&mut bar, b.as_str());
        push_str(&mut bar, "]");
        proof {
            reveal_strlit("[");
            reveal_strlit("]");
        }
        assert(bar@ =~= shutdown_bar_spec(drained, total, self.progress_width, self.mode, self.theme));
        bar
    }

    fn phase_text(&self, phase: ShutdownPhase) -> (s: String)
        ensures
            s@ == phase_line(self@, phase),
    {
        let mut s = String::new();
        if self.mode.uses_ansi() {
            let m = self.theme.muted.to_ansi_fg();
            push_str(&mut s, m.as_str());
            push_str(&mut s, "Phase:");
            push_str(&mut s, ANSI_RESET);
            push_str(&mut s, " ");
            let c = phase.color(&self.theme).to_ansi_fg();
            push_str(&mut s, c.as_str());
            push_str(&mut s, phase.label());
            push_str(&mut s, ANSI_RESET);
            proof {
                reveal_strlit("\x1b[0m");
            }
        } else {
            push_str(&mut s, "Phase: ");
            push_str(&mut s, phase.label());
        }
        assert(s@ =~= phase_line(self@, phase));
        s
    }

    /// Renders a snapshot as lines joined by newlines.
    #[verifier::rlimit(50)]
    pub fn render(&self, progress: &ShutdownProgress) -> (s: String)
        ensures
            s@ == join_with(shutdown_lines(self@, *progress), "\n"@),
    {
        let mut lines: Vec<String> = Vec::new();
        assert(strings_view(lines@) =~= Seq::<Seq<char>>::empty());
        match &self.title {
            Some(title) => {
                push_line(&mut lines, title.clone());
                let n = title.as_str().len();
                push_line(&mut lines, repeat_char('-', n));
            },
            None => {},
        }
        assert(strings_view(lines@) =~= title_lines(self@));
        push_line(&mut lines, self.phase_text(progress.phase));
        if progress.total_connections > 0 {
            let mut c = String::new();
            push_str(&mut c, "Connections: ");
            push_decimal(&mut c, progress.drained_connections as u64);
            push_str(&mut c, "/");
            push_decimal(&mut c, progress.total_connections as u64);
            push_str(&mut c, " drained ");
            let bar = self.bar(progress.drained_connections, progress.total_connections);
            push_str(&mut c, bar.as_str());
            push_line(&mut lines, c);
        } else {
            push_line(&mut lines, String::from_str("Connections: none"));
        }
        let ghost base = strings_view(lines@);
        assert(base =~= title_lines(self@) + seq![phase_line(self@, progress.phase), connections_line(self@, *progress)]);
        if progress.in_flight_requests > 0 {
            let mut c = String::new();
            push_str(&mut c, "In-flight requests: ");
            push_decimal(&mut c, progress.in_flight_requests as u64);
            push_line(&mut lines, c);
        }
        let ghost after_in_flight = strings_view(lines@);
        if progress.background_tasks > 0 {
            let mut c = String::new();
            push_str(&mut c, "Background tasks: ");
            push_decimal(&mut c, progress.background_tasks as u64);
            push_line(&mut lines, c);
        }
        let ghost after_bg = strings_view(lines@);
        if progress.cleanup_total > 0 {
            let mut c = String::new();
            push_str(&mut c, "Cleanup: ");
            push_decimal(&mut c, progress.cleanup_done as u64);
            push_str(&mut c, "/");
            push_decimal(&mut c, progress.cleanup_total as u64);
            push_str(&mut c, " steps");
            push_line(&mut lines, c);
        }
        let ghost before_notes = strings_view(lines@);
        assert(before_notes =~= base + count_lines(*progress));
        let mut i: usize = 0;
        while i < progress.notes.len()
            invariant
                i <= progress.notes.len(),
                strings_view(lines@) == before_notes + note_lines(strings_view(progress.notes@)).take(i as int),
            decreases progress.notes.len() - i,
        {
            let mut c = String::new();
            push_str(&mut c, "Note: ");
            push_str(&mut c, progress.notes[i].as_str());
            push_line(&mut lines, c);
            i += 1;
            assert(note_lines(strings_view(progress.notes@)).take(i as int) =~= note_lines(strings_view(progress.notes@)).take(i - 1).push("Note: "@ + progress.notes@[i - 1]@));
        }
        assert(note_lines(strings_view(progress.notes@)).take(progress.notes.len() as int) =~= note_lines(strings_view(progress.notes@)));
        let ghost before_complete = strings_view(lines@);
        if progress.phase == ShutdownPhase::Complete {
            let mut c = String::new();
            if self.mode.uses_ansi() {
                let g = self.theme.success.to_ansi_fg();
                push_str(&mut c, g.as_str());
                push_str(&mut c, "Shutdown complete");
                push_str(&mut c, ANSI_RESET);
                proof {
                    reveal_strlit("\x1b[0m");
                }
            } else {
                push_str(&mut c, "Shutdown complete");
            }
            assert(c@ =~= complete_line(self@));
            push_line(&mut lines, c);
        }
        assert(strings_view(lines@) =~= before_complete + opt_line(progress.phase == ShutdownPhase::Complete, complete_line(self@)));
        assert(strings_view(lines@) =~= shutdown_lines(self@, *progress));
        join_strings(&lines, "\n")
    }
}

} // verus!

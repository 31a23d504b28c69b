//! Commands that the application hands to the frame loop.

use vstd::prelude::*;
use crate::renderer::DrawMode;
use std::time::{Duration, Instant};

verus! {

/// `std::time::Instant`, a reading of the monotonic clock, as an opaque value.
#[verifier::external_type_specification]
#[verifier::external_body]
pub struct ExInstant(std::time::Instant);

/// `Instant::now`: the current reading of the monotonic clock. Nothing is assumed of
/// it.
pub assume_specification[ std::time::Instant::now ]() -> (now: Instant)
;

/// `Instant::elapsed`: the time that has passed since the instant. Nothing is
/// assumed of it.
pub assume_specification[ std::time::Instant::elapsed ](instant: &Instant) -> (elapsed: Duration)
;

/// A request to the frame loop.
#[derive(Debug)]
pub enum SoftRastCommand {
    /// Show this text as the window's title.
    SetTitle(String),
    /// Draw in this mode from the next frame on.
    SetRenderingMode { shaded: bool, wireframe: bool, points: bool },
}

/// What a command says, with the title as a sequence of characters.
pub enum CommandView {
    SetTitle(Seq<char>),
    SetRenderingMode { shaded: bool, wireframe: bool, points: bool },
}

impl View for SoftRastCommand {
    type V = CommandView;

    open spec fn view(&self) -> CommandView {
        match self {
            SoftRastCommand::SetTitle(title) => CommandView::SetTitle(title@),
            SoftRastCommand::SetRenderingMode { shaded, wireframe, points } => {
                CommandView::SetRenderingMode {
                    shaded: *shaded,
                    wireframe: *wireframe,
                    points: *points,
                }
            },
        }
    }
}

/// What a list of commands says.
pub open spec fn command_views(commands: Seq<SoftRastCommand>) -> Seq<CommandView> {
    commands.map_values(|command: SoftRastCommand| command@)
}

/// The drawing mode after a list of commands: that of the last command that sets
/// one, or `mode` if none does.
pub open spec fn mode_after(commands: Seq<CommandView>, mode: DrawMode) -> DrawMode
    decreases commands.len(),
{
    if commands.len() == 0 {
        mode
    } else {
        match commands.last() {
            CommandView::SetRenderingMode { shaded, wireframe, points } => DrawMode {
                wireframe,
                shaded,
                points,
            },
            CommandView::SetTitle(_) => mode_after(commands.drop_last(), mode),
        }
    }
}

/// The titles that a list of commands sets, in their order.
pub open spec fn titles_of(commands: Seq<CommandView>) -> Seq<Seq<char>>
    decreases commands.len(),
{
    if commands.len() == 0 {
        Seq::empty()
    } else {
        match commands.last() {
            CommandView::SetTitle(title) => titles_of(commands.drop_last()).push(title),
            CommandView::SetRenderingMode { .. } => titles_of(commands.drop_last()),
        }
    }
}

/// The views of a list of strings.
pub open spec fn string_views(strings: Seq<String>) -> Seq<Seq<char>> {
    strings.map_values(|s: String| s@)
}

/// The requests that are waiting for the frame loop, and a clock that runs since
/// the queue was made.
pub struct Command {
    pub commands: Vec<SoftRastCommand>,
    pub timer: Instant,
}

impl Command {
    /// What the waiting commands say, oldest first.
    pub open spec fn pending(&self) -> Seq<CommandView> {
        command_views(self.commands@)
    }

    /// Asks for a new window title.
    pub fn set_title(&mut self, title: &str)
        ensures
            final(self).pending() == old(self).pending().push(CommandView::SetTitle(title@)),
            final(self).timer == old(self).timer,
    {
        self.commands.push(SoftRastCommand::SetTitle(title.to_owned()));
        assert(self.pending() =~= old(self).pending().push(CommandView::SetTitle(title@)));
    }

    /// Asks for another drawing mode.
    pub fn set_render_mode(&mut self, shaded: bool, wireframe: bool, points: bool)
        ensures
            final(self).pending() == old(self).pending().push(
                CommandView::SetRenderingMode { shaded, wireframe, points },
            ),
            final(self).timer == old(self).timer,
    {
        self.commands.push(SoftRastCommand::SetRenderingMode { shaded, wireframe, points });
        assert(self.pending() =~= old(self).pending().push(
            CommandView::SetRenderingMode { shaded, wireframe, points },
        ));
    }

    /// The time since the queue was made.
    pub fn elapsed(&self) -> Duration {
        self.timer.elapsed()
    }

    /// Takes the waiting commands out of the queue. Returns the titles that they
    /// set, in their order, and the drawing mode that holds after them, which is
    /// `mode` if none of them sets one.
    pub fn drain(&mut self, mode: DrawMode) -> (taken: (Vec<String>, DrawMode))
        ensures
            final(self).pending() == Seq::<CommandView>::empty(),
            final(self).timer == old(self).timer,
            string_views(taken.0@) == titles_of(old(self).pending()),
            taken.1 == mode_after(old(self).pending(), mode),
    {
        let mut titles: Vec<String> = Vec::new();
        let mut current: DrawMode = mode;
        let mut i: usize = 0;
        while i < self.commands.len()
            invariant
                i <= self.commands@.len(),
                self.commands@ == old(self).commands@,
                self.timer == old(self).timer,
                string_views(titles@) == titles_of(old(self).pending().take(i as int)),
                current == mode_after(old(self).pending().take(i as int), mode),
            decreases self.commands@.len() - i,
        {
            proof {
                let next = old(self).pending().take(i as int + 1);
                assert(next.drop_last() == old(self).pending().take(i as int));
                assert(next.last() == self.commands@[i as int]@);
            }
            let ghost before = titles@;
            match &self.commands[i] {
                SoftRastCommand::SetTitle(title) => {
                    titles.push(title.clone());
                    assert(string_views(titles@) =~= string_views(before).push(title@));
                },
                SoftRastCommand::SetRenderingMode { shaded, wireframe, points } => {
                    current = DrawMode { wireframe: *wireframe, shaded: *shaded, points: *points };
                },
            }
            i = i + 1;
        }
        assert(old(self).pending().take(i as int) == old(self).pending());
        self.commands.clear();
        assert(self.pending() =~= Seq::<CommandView>::empty());
        (titles, current)
    }
}

impl Default for Command {
    /// An empty queue whose clock starts now.
    fn default() -> (command: Self)
        ensures
            command.pending() == Seq::<CommandView>::empty(),
    {
        let command = Command { commands: Vec::new(), timer: Instant::now() };
        assert(command.pending() =~= Seq::<CommandView>::empty());
        command
    }
}

} // verus!

//! The animated spinner.
use vstd::prelude::*;
use crate::deps::lipgloss::{render_spec, Style, StyleModel};
use crate::style::plain;

verus! {

broadcast use vstd::string::group_string_axioms;

/// Calls `Duration::from_millis`.
#[verifier::external_body]
fn millis(ms: u64) -> (r: std::time::Duration) {
    std::time::Duration::from_millis(ms)
}

/// A set of frames and the rate they advance at.
#[derive(Debug, Clone, Copy)]
pub struct Spinner {
    /// The frames, in order.
    pub frames: &'static [&'static str],
    /// How long each frame lasts.
    pub fps: std::time::Duration,
}

/// The line frames: `|`, `/`, `-` and `\`.
pub open spec fn line_frames(frames: Seq<&'static str>) -> bool {
    &&& frames.len() == 4
    &&& frames[0]@ == "|"@
    &&& frames[1]@ == "/"@
    &&& frames[2]@ == "-"@
    &&& frames[3]@ == "\\"@
}

/// The `Line` spinner: four frames, ten a second.
pub fn line() -> (r: Spinner)
    ensures
        line_frames(r.frames@),
{
    let frames: &'static [&'static str] = &["|", "/", "-", "\\"];
    assert(frames@[0] == "|" && frames@[1] == "/" && frames@[2] == "-" && frames@[3] == "\\");
    Spinner { frames, fps: millis(100) }
}

/// The spinner model.
#[derive(Debug, Clone)]
pub struct Model {
    /// Frames and rate.
    pub spinner: Spinner,
    /// Styling for the frame.
    pub style: Style,
    frame: usize,
}

impl Model {
    /// The frame shown.
    pub closed spec fn frame(&self) -> nat {
        self.frame as nat
    }

    /// The frames.
    pub closed spec fn frames(&self) -> Seq<&'static str> {
        self.spinner.frames@
    }

    /// The rate.
    pub closed spec fn rate(&self) -> std::time::Duration {
        self.spinner.fps
    }

    /// The style.
    pub closed spec fn style_view(&self) -> StyleModel {
        self.style@
    }

    /// A spinner with the line frames, an empty style, on its first frame.
    pub fn new() -> (r: Model)
        ensures
            line_frames(r.frames()),
            r.style_view() == plain(),
            r.frame() == 0,
    {
        Model { spinner: line(), style: Style::new(), frame: 0 }
    }

    /// How long until the next frame.
    pub fn fps(&self) -> (r: std::time::Duration)
        ensures
            r == self.rate(),
    {
        self.spinner.fps
    }

    /// Advances one frame, wrapping around.
    pub fn tick(&mut self)
        requires
            old(self).frames().len() > 0,
            old(self).frame() < usize::MAX,
        ensures
            final(self).frame() == (old(self).frame() + 1) % old(self).frames().len(),
            final(self).frames() == old(self).frames(),
            final(self).rate() == old(self).rate(),
            final(self).style_view() == old(self).style_view(),
    {
        let n = self.spinner.frames.len();
        self.frame = (self.frame + 1) % n;
    }

    /// Renders the current frame, nothing past the last.
    pub fn view(&self) -> (r: String)
        requires
            crate::deps::lipgloss::geometry_ok(self.style_view()),
        ensures
            self.frame() < self.frames().len() ==> r@ == render_spec(
                self.style_view(),
                self.frames()[self.frame() as int]@,
            ),
            self.frame() >= self.frames().len() ==> r@.len() == 0,
    {
        if self.frame < self.spinner.frames.len() {
            self.style.render(self.spinner.frames[self.frame])
        } else {
            String::new()
        }
    }
}

impl Model {
    /// Sets the frame's style.
    pub fn set_style(&mut self, st: Style)
        ensures
            final(self).style_view() == st@,
            final(self).frames() == old(self).frames(),
            final(self).rate() == old(self).rate(),
            final(self).frame() == old(self).frame(),
    {
        self.style = st;
    }
}

} // verus!

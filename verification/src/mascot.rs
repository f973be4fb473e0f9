//! The cat that sits on stderr while the CLI waits: mostly it just sits there,
//! sometimes it blinks. The same cat reaches out in the tunnel-open line, so
//! the poses read as one character.

use vstd::prelude::*;
use vstd::string::StringExecFns;

verus! {

broadcast use vstd::string::group_string_axioms;

/// What clears the line that the cat sits on.
pub const ERASE: &'static str = "\r\x1b[2K";

/// The cat at a tick: it blinks at every fifth.
pub open spec fn face_at(tick: usize) -> Seq<char> {
    if tick % 5 == 4 {
        "(=^--^=)"@
    } else {
        "(=^..^=)"@
    }
}

/// The cat at a tick.
pub fn face(tick: usize) -> (r: &'static str)
    ensures
        r@ == face_at(tick),
{
    if tick % 5 == 4 {
        "(=^--^=)"
    } else {
        "(=^..^=)"
    }
}

/// The cat while it waits. It is skipped entirely when stderr is not a
/// terminal, and erased before any real output prints.
#[derive(Debug, PartialEq, Eq, Structural)]
pub struct Mascot {
    pub stopped: bool,
    pub active: bool,
}

impl Mascot {
    /// The cat once it was told to leave.
    pub open spec fn stopped_for_good(self) -> Mascot {
        Mascot { stopped: true, ..self }
    }

    /// The cat sits down, where there is a terminal to sit on.
    pub fn start(terminal: bool) -> (r: Self)
        ensures
            r == (Mascot { stopped: false, active: terminal }),
    {
        Mascot { stopped: false, active: terminal }
    }

    /// What is drawn at a tick; nothing where there is no terminal or once the
    /// cat has left.
    pub fn draw(&self, tick: usize, label: &str) -> (r: Option<String>)
        ensures
            match r {
                Some(s) => self.active && !self.stopped && s@ == ERASE@ + face_at(tick) + "  "@
                    + label@,
                None => !self.active || self.stopped,
            },
    {
        if !self.active || self.stopped {
            return None;
        }
        let mut s = ERASE.to_owned();
        s.append(face(tick));
        s.append("  ");
        s.append(label);
        Some(s)
    }

    /// Stops the animation; what erases its line is to be printed.
    pub fn finish(&mut self) -> (r: Option<&'static str>)
        ensures
            *final(self) == old(self).stopped_for_good(),
            match r {
                Some(s) => old(self).active && s@ == ERASE@,
                None => !old(self).active,
            },
    {
        self.stopped = true;
        if self.active {
            Some(ERASE)
        } else {
            None
        }
    }
}

/// Telling the cat to leave again changes nothing: it has left, and stays away.
pub proof fn leaving_twice_is_leaving_once(cat: Mascot)
    ensures
        cat.stopped_for_good().stopped,
        cat.stopped_for_good().stopped_for_good() == cat.stopped_for_good(),
{
}

/// The faces share one width, so the line never shifts.
pub proof fn faces_share_one_width(a: usize, b: usize)
    ensures
        face_at(a).len() == face_at(b).len(),
{
    reveal_strlit("(=^--^=)");
    reveal_strlit("(=^..^=)");
}

/// The cat looks out for four ticks, blinks at the fifth, and goes on like that
/// for good.
pub proof fn the_cat_blinks_every_fifth_tick(tick: usize, later: usize, r: &str, r_later: &str)
    requires
        later == tick + 5,
        call_ensures(face, (tick,), r),
        call_ensures(face, (later,), r_later),
    ensures
        r@ == r_later@,
        tick < 4 ==> r@ == "(=^..^=)"@,
        tick == 4 ==> r@ == "(=^--^=)"@,
{
}

/// The cat is drawn with its label on a line of its own, as long as there is a
/// terminal and it has not left, and not at all otherwise.
pub proof fn the_cat_is_drawn_while_it_sits(
    cat: &Mascot,
    tick: usize,
    label: &str,
    looks: &str,
    r: Option<String>,
)
    requires
        call_ensures(face, (tick,), looks),
        call_ensures(Mascot::draw, (cat, tick, label), r),
    ensures
        r is Some <==> cat.active && !cat.stopped,
        r matches Some(s) ==> s@ == "\r\x1b[2K"@ + looks@ + "  "@ + label@,
{
}

/// The cat sits down where there is a terminal, and has not left yet.
pub proof fn the_cat_sits_on_terminals(terminal: bool, r: Mascot)
    requires
        call_ensures(Mascot::start, (terminal,), r),
    ensures
        r.active == terminal,
        !r.stopped,
{
}

/// A cat that was told to leave has left for good: its line is erased where
/// there is a terminal, however often it is told, and nothing is drawn again.
pub proof fn a_cat_that_left_stays_away(
    cat: &mut Mascot,
    later: &mut Mascot,
    tick: usize,
    label: &str,
    first: Option<&'static str>,
    second: Option<&'static str>,
    drawn: Option<String>,
)
    requires
        call_ensures(Mascot::finish, (cat,), first),
        *later == *final(cat),
        call_ensures(Mascot::finish, (later,), second),
        call_ensures(Mascot::draw, (&*final(later), tick, label), drawn),
    ensures
        first is Some <==> old(cat).active,
        second is Some <==> old(cat).active,
        first matches Some(s) ==> s@ == "\r\x1b[2K"@,
        second matches Some(s) ==> s@ == "\r\x1b[2K"@,
        drawn is None,
{
}

} // verus!

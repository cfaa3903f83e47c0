use vstd::prelude::*;
use crate::paths::{chars_of, push_char};
use crate::ui::types::{AppState, HomeEvent};

verus! {

/// What the home screen asks for in a frame: each button asks unless a vault
/// task is running, and the later button wins.
pub fn home_event(state: AppState, encrypt_clicked: bool, open_clicked: bool) -> (r: Option<HomeEvent>)
    ensures
        state == AppState::Loading ==> r is None,
        state != AppState::Loading && open_clicked ==> r == Some(HomeEvent::OpenVault),
        state != AppState::Loading && !open_clicked && encrypt_clicked ==> r == Some(HomeEvent::EncryptFolder),
        state != AppState::Loading && !open_clicked && !encrypt_clicked ==> r is None,
{
    let mut event = None;
    if encrypt_clicked && state != AppState::Loading {
        event = Some(HomeEvent::EncryptFolder);
    }
    if open_clicked && state != AppState::Loading {
        event = Some(HomeEvent::OpenVault);
    }
    event
}

/// The title that types itself out: how much of it shows, and the glitch
/// character shown after it, if any. How fast it types is up to the screen's
/// clock.
pub struct Typewriter {
    full_text: Vec<char>,
    current_length: usize,
    glitch_chars: Vec<char>,
    active_glitch: Option<char>,
}

impl Typewriter {
    /// A typewriter shows at most its title, glitches with `&`, `<` and `/`
    /// only, and shows a glitch only from among them.
    #[verifier::type_invariant]
    spec fn inv(self) -> bool {
        &&& self.glitch_chars@ == seq!['&', '<', '/']
        &&& self.current_length <= self.full_text@.len()
        &&& self.active_glitch matches Some(c) ==> self.glitch_chars@.contains(c)
    }

    /// The whole title.
    pub closed spec fn spec_text(&self) -> Seq<char> {
        self.full_text@
    }

    /// How many of its characters show.
    pub closed spec fn spec_shown(&self) -> nat {
        self.current_length as nat
    }

    /// The glitch character shown, if any.
    pub closed spec fn spec_glitch(&self) -> Option<char> {
        self.active_glitch
    }

    /// The characters glitches are drawn from: `&`, `<` and `/`.
    pub closed spec fn spec_glitch_chars(&self) -> Seq<char> {
        self.glitch_chars@
    }

    /// A typewriter for `full_text`, showing nothing yet.
    pub fn new(full_text: &str) -> (r: Self)
        ensures
            r.spec_text() == full_text@,
            r.spec_shown() == 0,
            r.spec_glitch() is None,
            r.spec_glitch_chars() == seq!['&', '<', '/'],
            r.spec_shown() <= r.spec_text().len(),
    {
        let g = vec!['&', '<', '/'];
        assert(g@ =~= seq!['&', '<', '/']);
        Typewriter { full_text: chars_of(full_text), current_length: 0, glitch_chars: g, active_glitch: None }
    }

    /// Whether the whole title shows.
    pub fn is_finished(&self) -> (r: bool)
        ensures
            r == (self.spec_shown() >= self.spec_text().len()),
    {
        self.current_length >= self.full_text.len()
    }

    /// A step of the clock: once the title is finished nothing glitches;
    /// before, where the clock says characters are due, they show, at most
    /// the whole title, and the glitch is picked from the millisecond time: on
    /// times divisible by 3 the glitch character at the time modulo their
    /// number, on others none.
    pub fn advance(&mut self, chars_due: usize, time_ms: usize)
        ensures
            final(self).spec_shown() <= final(self).spec_text().len(),
            final(self).spec_glitch() matches Some(c) ==> c == '&' || c == '<' || c == '/',
            final(self).spec_text() == old(self).spec_text(),
            final(self).spec_glitch_chars() == old(self).spec_glitch_chars(),
            old(self).spec_shown() >= old(self).spec_text().len() ==> final(self).spec_shown() == old(self).spec_shown()
                && final(self).spec_glitch() is None,
            old(self).spec_shown() < old(self).spec_text().len() && chars_due == 0 ==> final(self).spec_shown() == old(self).spec_shown()
                && final(self).spec_glitch() == old(self).spec_glitch(),
            old(self).spec_shown() < old(self).spec_text().len() && chars_due > 0 ==> {
                &&& final(self).spec_shown() == (if old(self).spec_shown() + chars_due < old(self).spec_text().len() {
                    old(self).spec_shown() + chars_due
                } else {
                    old(self).spec_text().len() as int
                })
                &&& final(self).spec_glitch() == (if time_ms % 3 == 0 {
                    Some(old(self).spec_glitch_chars()[(time_ms as int) % (old(self).spec_glitch_chars().len() as int)])
                } else {
                    None
                })
            },
    {
        proof {
            use_type_invariant(&*self);
        }
        let total = self.full_text.len();
        if self.current_length >= total {
            self.active_glitch = None;
            return;
        }
        if chars_due == 0 {
            return;
        }
        let room = total - self.current_length;
        self.current_length = if chars_due < room { self.current_length + chars_due } else { total };
        if time_ms % 3 == 0 {
            let idx = time_ms % self.glitch_chars.len();
            let g = self.glitch_chars[idx];
            assert(self.glitch_chars@.contains(g)) by {
                assert(self.glitch_chars@[idx as int] == g);
            }
            self.active_glitch = Some(g);
        } else {
            self.active_glitch = None;
        }
    }

    /// The text to draw: the characters shown, the glitch if any, and the
    /// cursor `|`.
    pub fn text(&self) -> (r: String)
        ensures
            r@ == self.spec_text().take(self.spec_shown() as int) + (match self.spec_glitch() {
                Some(g) => seq![g],
                None => Seq::empty(),
            }) + seq!['|'],
    {
        proof {
            use_type_invariant(self);
        }
        let mut s = String::new();
        let n = self.current_length;
        for i in 0..n
            invariant
                n == self.spec_shown(),
                n <= self.full_text@.len(),
                s@ == self.full_text@.take(i as int),
        {
            push_char(&mut s, self.full_text[i]);
            assert(s@ =~= self.full_text@.take(i + 1));
        }
        if let Some(g) = self.active_glitch {
            push_char(&mut s, g);
        }
        push_char(&mut s, '|');
        proof {
            assert(s@ =~= self.spec_text().take(self.spec_shown() as int) + (match self.spec_glitch() {
                Some(g) => seq![g],
                None => Seq::empty(),
            }) + seq!['|']);
        }
        s
    }
}

} // verus!

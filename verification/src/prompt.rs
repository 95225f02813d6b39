use vstd::prelude::*;
use vstd::string::*;

use crate::line::push_char;

verus! {

/// The command line shown under the tab bar: a response being edited and a
/// cursor inside it.
pub struct Prompt {
    cx: usize,
    response: Option<String>,
}

impl Prompt {
    /// The characters of the response, or `None` when the prompt is empty.
    pub closed spec fn response_view(&self) -> Option<Seq<char>> {
        match self.response {
            Some(ref s) => Some(s@),
            None => None,
        }
    }

    /// The characters of the response, empty when there is none.
    pub open spec fn response_chars(&self) -> Seq<char> {
        match self.response_view() {
            Some(s) => s,
            None => Seq::empty(),
        }
    }

    /// The cursor's position inside the response.
    pub closed spec fn cursor_spec(&self) -> int {
        self.cx as int
    }

    /// The cursor never leaves the response.
    pub open spec fn inv(&self) -> bool {
        0 <= self.cursor_spec() <= self.response_chars().len()
    }

    pub fn new(message: Option<String>) -> (p: Prompt)
        ensures
            p.inv(),
            p.response_view() == (match message {
                Some(m) => Some(m@),
                None => None::<Seq<char>>,
            }),
            p.cursor_spec() == p.response_chars().len(),
    {
        let cx = match &message {
            Some(m) => m.as_str().unicode_len(),
            None => 0,
        };
        Prompt { cx, response: message }
    }

    /// Delete the character under the cursor, if the cursor is not at the end.
    pub fn delete_char(&mut self)
        requires
            old(self).inv(),
        ensures
            final(self).inv(),
            final(self).cursor_spec() == old(self).cursor_spec(),
            final(self).response_view() == (match old(self).response_view() {
                Some(s) => Some(
                    if old(self).cursor_spec() < s.len() {
                        s.remove(old(self).cursor_spec())
                    } else {
                        s
                    },
                ),
                None => None::<Seq<char>>,
            }),
    {
        if let Some(res) = &self.response {
            let len = res.as_str().unicode_len();
            if self.cx < len {
                let s = res.as_str();
                let mut t = s.substring_char(0, self.cx).to_owned();
                t.append(s.substring_char(self.cx + 1, len));
                proof {
                    assert(t@ =~= res@.remove(self.cx as int));
                }
                self.response = Some(t);
            }
        }
    }

    /// Insert the typed character at the end of the response and advance the
    /// cursor past it.
    pub fn add_char(&mut self, c: char)
        requires
            old(self).inv(),
        ensures
            final(self).inv(),
            final(self).response_view() == Some(old(self).response_chars().push(c)),
            final(self).cursor_spec() == old(self).cursor_spec() + 1,
    {
        match &mut self.response {
            Some(s) => {
                push_char(s, c);
            },
            None => {
                let mut t = String::new();
                push_char(&mut t, c);
                proof {
                    assert(t@ =~= Seq::<char>::empty().push(c));
                }
                self.response = Some(t);
            },
        }
        let nl = match &self.response {
            Some(s) => s.as_str().unicode_len(),
            None => 0,
        };
        self.cx = if self.cx < nl {
            self.cx + 1
        } else {
            nl
        };
    }

    /// Step back one place and delete the character there.
    pub fn backspace(&mut self)
        requires
            old(self).inv(),
        ensures
            final(self).inv(),
            old(self).cursor_spec() == 0 ==> *final(self) == *old(self),
            old(self).cursor_spec() > 0 ==> final(self).cursor_spec() == old(self).cursor_spec()
                - 1 && final(self).response_view() == (match old(self).response_view() {
                Some(s) => Some(s.remove(old(self).cursor_spec() - 1)),
                None => None::<Seq<char>>,
            }),
    {
        if self.cx > 0 {
            self.cx = self.cx - 1;
            self.delete_char();
        }
    }

    /// Move the cursor by `dx`, clamped into the response.
    pub fn move_cursor(&mut self, dx: isize)
        requires
            old(self).inv(),
        ensures
            final(self).inv(),
            final(self).response_view() == old(self).response_view(),
            final(self).cursor_spec() == (if dx >= 0 {
                if old(self).cursor_spec() + dx <= old(self).response_chars().len() {
                    old(self).cursor_spec() + dx
                } else {
                    old(self).response_chars().len() as int
                }
            } else {
                if old(self).cursor_spec() + dx >= 0 {
                    old(self).cursor_spec() + dx
                } else {
                    0
                }
            }),
    {
        if dx >= 0 {
            let len = match &self.response {
                Some(s) => s.as_str().unicode_len(),
                None => 0,
            };
            let stepped = self.cx.saturating_add(dx as usize);
            self.cx = if stepped < len {
                stepped
            } else {
                len
            };
        } else {
            let mag = ((0 - (dx + 1)) as usize) + 1;
            self.cx = if self.cx >= mag {
                self.cx - mag
            } else {
                0
            };
        }
    }

    /// Where the terminal cursor belongs inside the drawn prompt, past the
    /// leading marker and the top border.
    pub fn get_cursor(&self) -> (r: (u16, u16))
        ensures
            r.1 == 1,
            ({
                let c16 = (self.cursor_spec() as usize) as u16;
                r.0 == (if c16 == u16::MAX {
                    u16::MAX
                } else {
                    (c16 + 1) as u16
                })
            }),
    {
        let c16 = #[verifier::truncate] (self.cx as u16);
        let c = if c16 == u16::MAX {
            u16::MAX
        } else {
            c16 + 1
        };
        (c, 1)
    }

    /// The response as typed so far.
    pub fn get_response(&self) -> (r: Option<&String>)
        ensures
            match r {
                Some(s) => self.response_view() == Some(s@),
                None => self.response_view() is None,
            },
    {
        self.response.as_ref()
    }

    /// Hand the finished response out and reset the cursor.
    pub fn take_answer(&mut self) -> (r: Option<String>)
        ensures
            final(self).inv(),
            final(self).cursor_spec() == 0,
            final(self).response_view() is None,
            (match (r, old(self).response_view()) {
                (Some(s), Some(v)) => s@ == v,
                (None, None) => true,
                _ => false,
            }),
    {
        self.cx = 0;
        self.response.take()
    }
}

} // verus!

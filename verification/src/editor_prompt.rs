use vstd::prelude::*;
use vstd::string::*;

use crate::line::push_char;

verus! {

/// What an answered prompt is for.
pub enum EditorPromptPurpose {
    Save,
    Open,
}

/// The one-line question-and-answer state of an editor session.
pub struct EditorPrompt {
    active: bool,
    answer: Option<String>,
    message: Option<String>,
    pub purpose: Option<EditorPromptPurpose>,
}

impl Default for EditorPrompt {
    /// A prompt that is not being shown.
    fn default() -> (p: Self)
        ensures
            !p.active_spec(),
            p.answer_view() is None,
            p.message_view() is None,
            p.purpose_spec() is None,
    {
        EditorPrompt { active: false, answer: None, message: None, purpose: None }
    }
}

impl EditorPrompt {
    /// Whether a prompt is being shown.
    pub closed spec fn active_spec(&self) -> bool {
        self.active
    }

    /// What an answer will be used for.
    pub closed spec fn purpose_spec(&self) -> Option<EditorPromptPurpose> {
        self.purpose
    }

    /// The characters typed so far, if any.
    pub closed spec fn answer_view(&self) -> Option<Seq<char>> {
        match self.answer {
            Some(ref s) => Some(s@),
            None => None,
        }
    }

    /// The question shown, if any.
    pub closed spec fn message_view(&self) -> Option<Seq<char>> {
        match self.message {
            Some(ref s) => Some(s@),
            None => None,
        }
    }

    pub fn new(message: String, purpose: Option<EditorPromptPurpose>) -> (p: EditorPrompt)
        ensures
            p.active_spec(),
            p.answer_view() is None,
            p.message_view() == Some(message@),
            p.purpose_spec() == purpose,
    {
        EditorPrompt { active: true, answer: None, message: Some(message), purpose }
    }

    pub fn get_answer(&self) -> (r: Option<&String>)
        ensures
            match r {
                Some(s) => self.answer_view() == Some(s@),
                None => self.answer_view() is None,
            },
    {
        self.answer.as_ref()
    }

    pub fn exit(&mut self)
        ensures
            !final(self).active_spec(),
            final(self).answer_view() is None,
            final(self).message_view() is None,
            final(self).purpose_spec() == old(self).purpose_spec(),
    {
        self.active = false;
        self.answer = None;
        self.message = None;
    }

    /// Append one typed character to the answer.
    pub fn add_char(&mut self, c: char)
        ensures
            final(self).answer_view() == Some(
                match old(self).answer_view() {
                    Some(a) => a.push(c),
                    None => seq![c],
                },
            ),
            final(self).active_spec() == old(self).active_spec(),
            final(self).message_view() == old(self).message_view(),
            final(self).purpose_spec() == old(self).purpose_spec(),
    {
        match &mut self.answer {
            Some(s) => {
                push_char(s, c);
            },
            None => {
                let mut t = String::new();
                push_char(&mut t, c);
                proof {
                    assert(t@ =~= seq![c]);
                }
                self.answer = Some(t);
            },
        }
    }

    /// Drop the last typed character, if there is one.
    pub fn remove_char(&mut self)
        ensures
            final(self).answer_view() == (match old(self).answer_view() {
                Some(a) => Some(if a.len() > 0 {
                    a.drop_last()
                } else {
                    a
                }),
                None => None,
            }),
            final(self).active_spec() == old(self).active_spec(),
            final(self).message_view() == old(self).message_view(),
            final(self).purpose_spec() == old(self).purpose_spec(),
    {
        if let Some(s) = &self.answer {
            let len = s.as_str().unicode_len();
            let cut = if len > 0 {
                len - 1
            } else {
                0
            };
            let t = s.as_str().substring_char(0, cut).to_owned();
            proof {
                let a = s@;
                if a.len() > 0 {
                    assert(t@ =~= a.drop_last());
                } else {
                    assert(t@ =~= a);
                }
            }
            self.answer = Some(t);
        }
    }

    /// What an answer will be used for.
    pub fn get_purpose(&self) -> (r: Option<EditorPromptPurpose>)
        ensures
            r == self.purpose_spec(),
    {
        match self.purpose {
            Some(EditorPromptPurpose::Save) => Some(EditorPromptPurpose::Save),
            Some(EditorPromptPurpose::Open) => Some(EditorPromptPurpose::Open),
            None => None,
        }
    }

    pub fn is_active(&self) -> (r: bool)
        ensures
            r == self.active_spec(),
    {
        self.active
    }

    /// The line shown for the prompt: the question, a separator, and the
    /// answer typed so far.
    pub fn draw(&self) -> (r: String)
        ensures
            r@ == (match (self.message_view(), self.answer_view()) {
                (Some(m), Some(a)) => m + ": "@ + a,
                (Some(m), None) => m + ": "@,
                (None, Some(a)) => a,
                (None, None) => Seq::<char>::empty(),
            }),
    {
        let mut out = String::new();
        if let Some(m) = &self.message {
            out.append(m.as_str());
            out.append(": ");
        }
        if let Some(a) = &self.answer {
            out.append(a.as_str());
        }
        out
    }

    /// How many screen cells the prompt occupies, clipped to a `u16`.
    pub fn get_length(&self) -> (r: u16)
        ensures
            ({
                let t = (match self.message_view() {
                    Some(m) => m.len() + 2,
                    None => 0,
                }) + (match self.answer_view() {
                    Some(a) => a.len(),
                    None => 0,
                });
                r == (if t > usize::MAX {
                    usize::MAX
                } else {
                    t as usize
                }) as u16
            }),
    {
        let m_len: usize = match &self.message {
            Some(m) => m.as_str().unicode_len().saturating_add(2),
            None => 0,
        };
        let a_len: usize = match &self.answer {
            Some(a) => a.as_str().unicode_len(),
            None => 0,
        };
        let total = m_len.saturating_add(a_len);
        total as u16
    }
}

} // verus!

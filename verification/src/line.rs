use vstd::prelude::*;
use vstd::string::*;

use crate::render_config::RenderConfig;

verus! {

/// A character that may belong to a line terminator.
pub open spec fn is_term_char(c: char) -> bool {
    c == '\n' || c == '\r'
}

/// Length of the trailing terminator of a raw line: `"\r\n"` counts 2,
/// a single trailing `'\n'` or `'\r'` counts 1, anything else 0.
pub open spec fn term_len_of(s: Seq<char>) -> nat {
    if s.len() >= 2 && s[s.len() - 2] == '\r' && s[s.len() - 1] == '\n' {
        2
    } else if s.len() >= 1 && is_term_char(s[s.len() - 1]) {
        1
    } else {
        0
    }
}

/// Number of characters before the trailing terminator.
pub open spec fn clean_len_of(s: Seq<char>) -> nat {
    (s.len() - term_len_of(s)) as nat
}

/// The raw content with its trailing terminator removed.
pub open spec fn clean_of(s: Seq<char>) -> Seq<char> {
    s.take(clean_len_of(s) as int)
}

/// The trailing terminator itself (possibly empty).
pub open spec fn ending_of(s: Seq<char>) -> Seq<char> {
    s.skip(clean_len_of(s) as int)
}

/// A well-formed raw line keeps terminator characters out of its clean part.
pub open spec fn line_wf(s: Seq<char>) -> bool {
    forall|i: int| 0 <= i < clean_len_of(s) ==> !is_term_char(s[i])
}

/// What one character contributes to a rendered line: a tab becomes
/// `tab` spaces, any other character stands for itself.
pub open spec fn render_unit(c: char, tab: nat) -> Seq<char> {
    if c == '\t' {
        Seq::new(tab, |i: int| ' ')
    } else {
        seq![c]
    }
}

/// The rendered form of a character sequence with tabs expanded.
pub open spec fn render_of(s: Seq<char>, tab: nat) -> Seq<char>
    decreases s.len(),
{
    if s.len() == 0 {
        Seq::empty()
    } else {
        render_of(s.drop_last(), tab) + render_unit(s.last(), tab)
    }
}

/// One physical line of the buffer: its exact raw characters, trailing
/// terminator included.  Immutable: every edit builds a new `Line`.
pub struct Line {
    raw: String,
}

impl View for Line {
    type V = Seq<char>;

    closed spec fn view(&self) -> Seq<char> {
        self.raw@
    }
}

impl Line {
    pub fn new(raw: String) -> (l: Line)
        ensures
            l@ == raw@,
    {
        Line { raw }
    }

    /// The exact stored characters.
    pub fn get_raw(&self) -> (r: &str)
        ensures
            r@ == self@,
    {
        self.raw.as_str()
    }

    /// Number of characters stored (terminator included).
    pub fn char_len(&self) -> (n: usize)
        ensures
            n == self@.len(),
    {
        self.raw.as_str().unicode_len()
    }

    /// Number of characters before the trailing terminator.
    pub fn clean_len(&self) -> (n: usize)
        ensures
            n == clean_len_of(self@),
    {
        let s = self.raw.as_str();
        let len = s.unicode_len();
        if len >= 2 && s.get_char(len - 2) == '\r' && s.get_char(len - 1) == '\n' {
            len - 2
        } else if len >= 1 && (s.get_char(len - 1) == '\n' || s.get_char(len - 1) == '\r') {
            len - 1
        } else {
            len
        }
    }

    /// The raw content with its trailing terminator stripped.
    pub fn get_clean_raw(&self) -> (r: String)
        ensures
            r@ == clean_of(self@),
    {
        let n = self.clean_len();
        self.raw.as_str().substring_char(0, n).to_owned()
    }

    /// The clean content with each tab expanded to `options.tab_size` spaces.
    pub fn render(&self, options: &RenderConfig) -> (r: String)
        ensures
            r@ == render_of(clean_of(self@), options.tab_size as nat),
    {
        let s = self.raw.as_str();
        let n = self.clean_len();
        let tab = options.tab_size;
        let mut out = String::new();
        let mut i: usize = 0;
        while i < n
            invariant
                i <= n,
                n == clean_len_of(s@),
                n <= s@.len(),
                out@ == render_of(clean_of(s@).take(i as int), tab as nat),
            decreases n - i,
        {
            let c = s.get_char(i);
            proof {
                assert(clean_of(s@).take(i + 1).drop_last() =~= clean_of(s@).take(i as int));
                assert(clean_of(s@).take(i + 1).last() == c);
            }
            if c == '\t' {
                let mut j: usize = 0;
                while j < tab
                    invariant
                        j <= tab,
                        out@ == render_of(clean_of(s@).take(i as int), tab as nat) + Seq::new(
                            j as nat,
                            |k: int| ' ',
                        ),
                    decreases tab - j,
                {
                    push_char(&mut out, ' ');
                    proof {
                        assert(out@ =~= render_of(clean_of(s@).take(i as int), tab as nat)
                            + Seq::new((j + 1) as nat, |k: int| ' '));
                    }
                    j = j + 1;
                }
                proof {
                    assert(out@ =~= render_of(clean_of(s@).take(i + 1), tab as nat));
                }
            } else {
                push_char(&mut out, c);
                proof {
                    assert(out@ =~= render_of(clean_of(s@).take(i + 1), tab as nat));
                }
            }
            i = i + 1;
        }
        proof {
            assert(clean_of(s@).take(n as int) =~= clean_of(s@));
        }
        out
    }
}

/// Relies on `String::push`: appends exactly the given character.
#[verifier::external_body]
pub(crate) fn push_char(s: &mut String, c: char)
    ensures
        final(s)@ == old(s)@.push(c),
{
    s.push(c)
}

} // verus!

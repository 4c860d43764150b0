//! Application-level state that carries no widgets: menu-bar dialog state,
//! fullscreen backdrop cycling, file-operation requests, and the parsing of
//! dialog input.

use vstd::prelude::*;
use vstd::string::StringSliceAdditionalSpecFns;

verus! {

/// A file operation requested from the menu, to be carried out by the I/O
/// worker; the path is carried as plain text.
#[derive(Debug)]
pub enum FileOperation {
    Open(String),
    Save(String),
}

/// The backdrop behind the canvas in fullscreen viewing.
#[derive(Debug, Clone, Copy, PartialEq, Eq, Structural)]
pub enum FullscreenBackground {
    Black,
    Alpha,
    White,
}

impl FullscreenBackground {
    /// The next backdrop in the cycle black, alpha, white.
    pub fn cycled(&self) -> (r: FullscreenBackground)
        ensures
            r == match *self {
                FullscreenBackground::Black => FullscreenBackground::Alpha,
                FullscreenBackground::Alpha => FullscreenBackground::White,
                FullscreenBackground::White => FullscreenBackground::Black,
            },
    {
        match self {
            FullscreenBackground::Black => FullscreenBackground::Alpha,
            FullscreenBackground::Alpha => FullscreenBackground::White,
            FullscreenBackground::White => FullscreenBackground::Black,
        }
    }
}

/// The menu bar's own state: which dialogs are open and the text typed
/// into the new-image dialog.
pub struct MenuBar {
    pub show_new_dialog: bool,
    pub new_width: String,
    pub new_height: String,
    pub show_about: bool,
}

impl Default for MenuBar {
    /// All dialogs closed, with the default 800 x 600 image size offered.
    fn default() -> (m: Self)
        ensures
            m.show_new_dialog == false,
            m.show_about == false,
            m.new_width@ == "800"@,
            m.new_height@ == "600"@,
    {
        MenuBar {
            show_new_dialog: false,
            new_width: "800".to_string(),
            new_height: "600".to_string(),
            show_about: false,
        }
    }
}

/// Whether every byte is an ASCII decimal digit.
pub open spec fn dec_digits(s: Seq<u8>) -> bool {
    forall|i: int| 0 <= i < s.len() ==> 48 <= #[trigger] s[i] <= 57
}

/// The number a sequence of ASCII decimal digits denotes.
pub open spec fn dec_value(s: Seq<u8>) -> int
    decreases s.len(),
{
    if s.len() == 0 {
        0
    } else {
        10 * dec_value(s.drop_last()) + (s.last() - 48)
    }
}

/// A digit string denotes a nonnegative number.
proof fn lemma_dec_value_nonneg(s: Seq<u8>)
    requires
        dec_digits(s),
    ensures
        dec_value(s) >= 0,
    decreases s.len(),
{
    if s.len() > 0 {
        assert(dec_digits(s.drop_last()));
        lemma_dec_value_nonneg(s.drop_last());
    }
}

/// Extending a digit string never shrinks its value.
proof fn lemma_dec_value_grows(s: Seq<u8>, i: int)
    requires
        dec_digits(s),
        0 <= i <= s.len(),
    ensures
        dec_value(s) >= dec_value(s.take(i)),
    decreases s.len() - i,
{
    if i < s.len() {
        lemma_dec_value_grows(s, i + 1);
        assert(s.take(i + 1).drop_last() =~= s.take(i));
        assert(dec_digits(s.take(i)));
        lemma_dec_value_nonneg(s.take(i));
        assert(dec_value(s.take(i + 1)) == 10 * dec_value(s.take(i)) + (s[i] - 48));
    } else {
        assert(s.take(i) =~= s);
    }
}

/// Reads a canvas dimension typed into the new-image dialog: the denoted
/// number when the text is one or more decimal digits and fits, and the
/// caller's default for anything else.
pub fn parse_dimension(s: &str, default: u32) -> (r: u32)
    ensures
        r as int == if s.spec_bytes().len() > 0 && dec_digits(s.spec_bytes())
            && dec_value(s.spec_bytes()) <= u32::MAX {
            dec_value(s.spec_bytes())
        } else {
            default as int
        },
{
    let b = s.as_bytes();
    if b.len() == 0 {
        return default;
    }
    let mut v: u64 = 0;
    let mut i: usize = 0;
    while i < b.len()
        invariant
            b@ == s.spec_bytes(),
            b@.len() > 0,
            i <= b@.len(),
            forall|j: int| 0 <= j < i ==> 48 <= #[trigger] b@[j] <= 57,
            v <= u32::MAX,
            v as int == dec_value(b@.take(i as int)),
        decreases b@.len() - i,
    {
        let c = b[i];
        if c < 48 || c > 57 {
            proof {
                assert(!dec_digits(s.spec_bytes()));
            }
            return default;
        }
        let d = (c - 48) as u64;
        v = 10 * v + d;
        proof {
            assert(b@.take(i + 1).drop_last() =~= b@.take(i as int));
            assert(b@.take(i + 1).last() == b@[i as int]);
        }
        i = i + 1;
        if v > 0xFFFF_FFFF {
            proof {
                if dec_digits(s.spec_bytes()) {
                    lemma_dec_value_grows(s.spec_bytes(), i as int);
                }
            }
            return default;
        }
    }
    proof {
        assert(b@.take(i as int) =~= b@);
    }
    v as u32
}

} // verus!

//! The flags of a literal.
use vstd::prelude::*;
use crate::error::{message_text, Error, ErrorKind};

verus! {

/// The flags `g i m s u y` that may follow the closing `/`.
#[derive(Clone, Copy, Debug, PartialEq, Eq, Structural)]
pub struct RegExFlags {
    pub case_insensitive: bool,
    pub multi_line: bool,
    pub dot_matches_new_line: bool,
    pub unicode: bool,
    pub global: bool,
    pub sticky: bool,
}

/// No flag set.
pub open spec fn no_flags() -> RegExFlags {
    RegExFlags {
        case_insensitive: false,
        multi_line: false,
        dot_matches_new_line: false,
        unicode: false,
        global: false,
        sticky: false,
    }
}

/// Whether the flag written `c` is set in `f`; `None` where `c` names no flag.
pub open spec fn flag_of(f: RegExFlags, c: char) -> Option<bool> {
    if c == 'g' {
        Some(f.global)
    } else if c == 'i' {
        Some(f.case_insensitive)
    } else if c == 'm' {
        Some(f.multi_line)
    } else if c == 's' {
        Some(f.dot_matches_new_line)
    } else if c == 'u' {
        Some(f.unicode)
    } else if c == 'y' {
        Some(f.sticky)
    } else {
        None
    }
}

/// `f` with the flag written `c` set.
pub open spec fn with_flag(f: RegExFlags, c: char) -> RegExFlags {
    RegExFlags {
        global: f.global || c == 'g',
        case_insensitive: f.case_insensitive || c == 'i',
        multi_line: f.multi_line || c == 'm',
        dot_matches_new_line: f.dot_matches_new_line || c == 's',
        unicode: f.unicode || c == 'u',
        sticky: f.sticky || c == 'y',
    }
}

/// Adding the flag `c` to `f`: the new flags, or the kind of defect.
pub open spec fn flag_added(f: RegExFlags, c: char) -> Result<RegExFlags, ErrorKind> {
    match flag_of(f, c) {
        None => Err(ErrorKind::InvalidFlag(c)),
        Some(true) => Err(ErrorKind::DuplicateFlag(c)),
        Some(false) => Ok(with_flag(f, c)),
    }
}

/// The flags that the characters `f[i..]` add to `acc`, or the first defect
/// with its index into `f`.
pub open spec fn flags_from(acc: RegExFlags, f: Seq<char>, i: int) -> Result<RegExFlags, (ErrorKind, int)>
    decreases f.len() - i,
{
    if i < 0 || i >= f.len() {
        Ok(acc)
    } else {
        match flag_added(acc, f[i]) {
            Err(kind) => Err((kind, i)),
            Ok(next) => flags_from(next, f, i + 1),
        }
    }
}

impl Default for RegExFlags {
    fn default() -> (r: Self)
        ensures
            r == no_flags(),
    {
        RegExFlags {
            case_insensitive: false,
            multi_line: false,
            dot_matches_new_line: false,
            unicode: false,
            global: false,
            sticky: false,
        }
    }
}

impl RegExFlags {
    /// Sets the flag written `c`. A flag already set, or a character that
    /// names no flag, is an error at byte offset `pos`, and changes nothing.
    pub fn add_flag(&mut self, c: char, pos: usize) -> (r: Result<(), Error>)
        ensures
            match flag_added(*old(self), c) {
                Ok(f) => r is Ok && *final(self) == f,
                Err(kind) => *final(self) == *old(self) && (r matches Err(e) && e.kind == kind
                    && e.idx == pos && e.msg@ == message_text(kind, ""@)),
            },
    {
        match c {
            'g' => {
                if self.global {
                    Err(Error::new(pos, ErrorKind::DuplicateFlag(c), ""))
                } else {
                    self.global = true;
                    Ok(())
                }
            },
            'i' => {
                if self.case_insensitive {
                    Err(Error::new(pos, ErrorKind::DuplicateFlag(c), ""))
                } else {
                    self.case_insensitive = true;
                    Ok(())
                }
            },
            'm' => {
                if self.multi_line {
                    Err(Error::new(pos, ErrorKind::DuplicateFlag(c), ""))
                } else {
                    self.multi_line = true;
                    Ok(())
                }
            },
            's' => {
                if self.dot_matches_new_line {
                    Err(Error::new(pos, ErrorKind::DuplicateFlag(c), ""))
                } else {
                    self.dot_matches_new_line = true;
                    Ok(())
                }
            },
            'u' => {
                if self.unicode {
                    Err(Error::new(pos, ErrorKind::DuplicateFlag(c), ""))
                } else {
                    self.unicode = true;
                    Ok(())
                }
            },
            'y' => {
                if self.sticky {
                    Err(Error::new(pos, ErrorKind::DuplicateFlag(c), ""))
                } else {
                    self.sticky = true;
                    Ok(())
                }
            },
            _ => Err(Error::new(pos, ErrorKind::InvalidFlag(c), "")),
        }
    }
}

} // verus!

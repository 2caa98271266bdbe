use vstd::prelude::*;

verus! {

/// Per-option configuration: whether the option may be passed at most once,
/// whether it is hidden from help output, and whether it takes a mandatory
/// or an optional value.
#[derive(Clone, Copy, PartialEq, Eq, Structural, Debug)]
pub struct Flags {
    pub unique: bool,
    pub hidden: bool,
    pub takes_arg: bool,
    pub takes_optional_arg: bool,
}

/// The flag set with no flag raised.
pub open spec fn default_flags() -> Flags {
    Flags { unique: false, hidden: false, takes_arg: false, takes_optional_arg: false }
}

impl Flags {
    /// No flags set: the option takes no value, may repeat, and is shown in help.
    pub fn defaults() -> (f: Flags)
        ensures
            f == default_flags(),
    {
        Flags { unique: false, hidden: false, takes_arg: false, takes_optional_arg: false }
    }

    /// The option may be passed at most once.
    pub fn unique() -> (f: Flags)
        ensures
            f == (Flags {
                unique: true,
                hidden: false,
                takes_arg: false,
                takes_optional_arg: false,
            }),
    {
        Flags { unique: true, hidden: false, takes_arg: false, takes_optional_arg: false }
    }

    /// The option is left out of help output.
    pub fn hidden() -> (f: Flags)
        ensures
            f == (Flags {
                unique: false,
                hidden: true,
                takes_arg: false,
                takes_optional_arg: false,
            }),
    {
        Flags { unique: false, hidden: true, takes_arg: false, takes_optional_arg: false }
    }

    /// The option takes a mandatory value.
    pub fn takes_arg() -> (f: Flags)
        ensures
            f == (Flags {
                unique: false,
                hidden: false,
                takes_arg: true,
                takes_optional_arg: false,
            }),
    {
        Flags { unique: false, hidden: false, takes_arg: true, takes_optional_arg: false }
    }

    /// The option takes an optional value.
    pub fn takes_optional_arg() -> (f: Flags)
        ensures
            f == (Flags {
                unique: false,
                hidden: false,
                takes_arg: false,
                takes_optional_arg: true,
            }),
    {
        Flags { unique: false, hidden: false, takes_arg: false, takes_optional_arg: true }
    }

    /// Combine two flag sets: a bit is set in the result when it is set in either.
    pub fn or(self, other: Flags) -> (f: Flags)
        ensures
            f == (Flags {
                unique: self.unique || other.unique,
                hidden: self.hidden || other.hidden,
                takes_arg: self.takes_arg || other.takes_arg,
                takes_optional_arg: self.takes_optional_arg || other.takes_optional_arg,
            }),
    {
        Flags {
            unique: self.unique || other.unique,
            hidden: self.hidden || other.hidden,
            takes_arg: self.takes_arg || other.takes_arg,
            takes_optional_arg: self.takes_optional_arg || other.takes_optional_arg,
        }
    }

    /// Whether the option consumes a following bare value when one is present.
    pub open spec fn takes_value(self) -> bool {
        self.takes_arg || self.takes_optional_arg
    }
}

} // verus!

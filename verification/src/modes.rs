//! The three operating modes, and what each of them means for the focus application and for
//! everything else.
use vstd::prelude::*;

use crate::text::{chars_of, same_text};

verus! {

/// The operating mode.
#[derive(Debug, Clone, Copy, PartialEq, Eq, Structural)]
pub enum Mode {
    /// Inactive: no throttling, no freezing.
    Normal,
    /// The focus application is boosted and the background throttled.
    Supaa,
    /// Extreme: the background is frozen and workspace switching locked.
    SupaaPlus,
}

/// The lower-case form of an ASCII letter; every other character is its own.
pub open spec fn lower(c: char) -> char {
    if 'A' <= c <= 'Z' {
        (c as int + 32) as char
    } else {
        c
    }
}

pub open spec fn lowered(s: Seq<char>) -> Seq<char> {
    s.map_values(|c: char| lower(c))
}

fn lower_chars(s: &str) -> (r: Vec<char>)
    ensures
        r@ == lowered(s@),
{
    let chars = chars_of(s);
    let mut out: Vec<char> = Vec::new();
    let mut i: usize = 0;
    while i < chars.len()
        invariant
            i <= chars@.len(),
            chars@ == s@,
            out@ == lowered(s@.take(i as int)),
        decreases chars@.len() - i,
    {
        let c = chars[i];
        let low = if 'A' <= c && c <= 'Z' {
            (c as u8 + 32u8) as char
        } else {
            c
        };
        out.push(low);
        i = i + 1;
        proof {
            assert(out@ =~= lowered(s@.take(i as int)));
        }
    }
    proof {
        assert(s@.take(i as int) =~= s@);
    }
    out
}

/// The mode that a name stands for.  Upper and lower case are the same.
pub open spec fn mode_named(name: Seq<char>) -> Option<Mode> {
    let s = lowered(name);
    if s == "normal"@ {
        Some(Mode::Normal)
    } else if s == "supaa"@ {
        Some(Mode::Supaa)
    } else if s == "supaa++"@ || s == "supaa_plus"@ || s == "supaaplus"@ {
        Some(Mode::SupaaPlus)
    } else {
        None
    }
}

/// The name under which a mode is shown.
pub open spec fn mode_name(mode: Mode) -> Seq<char> {
    match mode {
        Mode::Normal => "Normal"@,
        Mode::Supaa => "Supaa"@,
        Mode::SupaaPlus => "Supaa++"@,
    }
}

/// The weight that the kernel gives to a group unless told otherwise.
pub const DEFAULT_WEIGHT: u64 = 100;

/// The range of weights that the kernel accepts.
pub const MIN_WEIGHT: u64 = 1;

pub const MAX_WEIGHT: u64 = 10000;

impl Mode {
    pub fn as_str(&self) -> (r: &'static str)
        ensures
            r@ == mode_name(*self),
    {
        match self {
            Mode::Normal => "Normal",
            Mode::Supaa => "Supaa",
            Mode::SupaaPlus => "Supaa++",
        }
    }

    /// The mode that a name stands for.  Upper and lower case are the same; no letter outside
    /// ASCII is the upper case of a letter in these names.
    pub fn from_str(s: &str) -> (r: Option<Self>)
        ensures
            r == mode_named(s@),
    {
        let low = lower_chars(s);
        let name = low.as_slice();
        if same_text(name, chars_of("normal").as_slice()) {
            Some(Mode::Normal)
        } else if same_text(name, chars_of("supaa").as_slice()) {
            Some(Mode::Supaa)
        } else if same_text(name, chars_of("supaa++").as_slice()) || same_text(
            name,
            chars_of("supaa_plus").as_slice(),
        ) || same_text(name, chars_of("supaaplus").as_slice()) {
            Some(Mode::SupaaPlus)
        } else {
            None
        }
    }

    /// CPU weight for the focus application.
    pub open spec fn focus_cpu(self) -> u64 {
        match self {
            Mode::Normal => DEFAULT_WEIGHT,
            Mode::Supaa => 800,
            Mode::SupaaPlus => MAX_WEIGHT,
        }
    }

    /// CPU weight for the background.
    pub open spec fn background_cpu(self) -> u64 {
        match self {
            Mode::Normal => DEFAULT_WEIGHT,
            Mode::Supaa => 20,
            Mode::SupaaPlus => MIN_WEIGHT,
        }
    }

    /// I/O weight for the focus application.
    pub open spec fn focus_io(self) -> u64 {
        match self {
            Mode::Normal => DEFAULT_WEIGHT,
            Mode::Supaa => 800,
            Mode::SupaaPlus => MAX_WEIGHT,
        }
    }

    /// I/O weight for the background.
    pub open spec fn background_io(self) -> u64 {
        match self {
            Mode::Normal => DEFAULT_WEIGHT,
            Mode::Supaa => 20,
            Mode::SupaaPlus => MIN_WEIGHT,
        }
    }

    /// The share of the installed memory, in percent, above which the background is slowed down.
    pub open spec fn memory_percent(self) -> Option<u64> {
        match self {
            Mode::Normal => None,
            Mode::Supaa => Some(75),
            Mode::SupaaPlus => Some(50),
        }
    }

    /// CPU weight for the focus application.
    pub fn focus_cpu_weight(&self) -> (r: u64)
        ensures
            r == self.focus_cpu(),
    {
        match self {
            Mode::Normal => 100,
            Mode::Supaa => 800,
            Mode::SupaaPlus => 10000,
        }
    }

    /// CPU weight for background applications.
    pub fn bg_cpu_weight(&self) -> (r: u64)
        ensures
            r == self.background_cpu(),
    {
        match self {
            Mode::Normal => 100,
            Mode::Supaa => 20,
            Mode::SupaaPlus => 1,
        }
    }

    /// I/O weight for the focus application.
    pub fn focus_io_weight(&self) -> (r: u64)
        ensures
            r == self.focus_io(),
    {
        match self {
            Mode::Normal => 100,
            Mode::Supaa => 800,
            Mode::SupaaPlus => 10000,
        }
    }

    /// I/O weight for background applications.
    pub fn bg_io_weight(&self) -> (r: u64)
        ensures
            r == self.background_io(),
    {
        match self {
            Mode::Normal => 100,
            Mode::Supaa => 20,
            Mode::SupaaPlus => 1,
        }
    }

    /// Percentage of the installed memory used as the soft limit of the background; `None` is no
    /// limit.
    pub fn bg_memory_high_percent(&self) -> (r: Option<u64>)
        ensures
            r == self.memory_percent(),
    {
        match self {
            Mode::Normal => None,
            Mode::Supaa => Some(75),
            Mode::SupaaPlus => Some(50),
        }
    }

    /// Should non-essential background processes be frozen?
    pub fn should_freeze_background(&self) -> (r: bool)
        ensures
            r == (*self == Mode::SupaaPlus),
    {
        matches!(self, Mode::SupaaPlus)
    }

    /// Should workspace switching be locked?
    pub fn should_lock_workspace(&self) -> (r: bool)
        ensures
            r == (*self == Mode::SupaaPlus),
    {
        matches!(self, Mode::SupaaPlus)
    }

    /// Does this mode require a confirmation before quitting?
    pub fn requires_quit_confirmation(&self) -> (r: bool)
        ensures
            r == (*self == Mode::SupaaPlus),
    {
        matches!(self, Mode::SupaaPlus)
    }
}

/// Reading back the name under which a mode is shown gives the mode.
pub proof fn law_name_reads_back(mode: Mode)
    ensures
        mode_named(mode_name(mode)) == Some(mode),
{
    reveal_strlit("Normal");
    reveal_strlit("normal");
    reveal_strlit("Supaa");
    reveal_strlit("supaa");
    reveal_strlit("Supaa++");
    reveal_strlit("supaa++");
    reveal_strlit("supaa_plus");
    reveal_strlit("supaaplus");
    match mode {
        Mode::Normal => {
            assert(lowered("Normal"@) =~= "normal"@);
        },
        Mode::Supaa => {
            assert(lowered("Supaa"@) =~= "supaa"@);
            assert("supaa"@.len() != "normal"@.len());
        },
        Mode::SupaaPlus => {
            assert(lowered("Supaa++"@) =~= "supaa++"@);
            assert("supaa++"@.len() != "normal"@.len());
            assert("supaa++"@.len() != "supaa"@.len());
        },
    }
}

/// Two names that differ in case alone stand for the same mode.
pub proof fn law_case_is_ignored(a: Seq<char>, b: Seq<char>)
    requires
        lowered(a) == lowered(b),
    ensures
        mode_named(a) == mode_named(b),
{
}

/// Every weight of every mode lies in the range that the kernel accepts.
pub proof fn law_weights_are_accepted(mode: Mode)
    ensures
        MIN_WEIGHT <= mode.focus_cpu() <= MAX_WEIGHT,
        MIN_WEIGHT <= mode.background_cpu() <= MAX_WEIGHT,
        MIN_WEIGHT <= mode.focus_io() <= MAX_WEIGHT,
        MIN_WEIGHT <= mode.background_io() <= MAX_WEIGHT,
{
}

/// Only in `Normal` do the focus application and the background weigh the same, namely what the
/// kernel gives by default; in the other modes the focus application weighs more than that and
/// the background less, and the background has a memory limit.
pub proof fn law_only_normal_is_neutral(mode: Mode)
    ensures
        mode == Mode::Normal ==> mode.focus_cpu() == DEFAULT_WEIGHT && mode.background_cpu()
            == DEFAULT_WEIGHT && mode.focus_io() == DEFAULT_WEIGHT && mode.background_io()
            == DEFAULT_WEIGHT && mode.memory_percent() is None,
        mode != Mode::Normal ==> mode.focus_cpu() > DEFAULT_WEIGHT > mode.background_cpu()
            && mode.focus_io() > DEFAULT_WEIGHT > mode.background_io()
            && mode.memory_percent() is Some,
{
}

/// `Supaa` gives the focus application eight times what the kernel gives by default, and
/// `SupaaPlus` goes further than `Supaa` in every respect.
pub proof fn law_modes_escalate()
    ensures
        Mode::Supaa.focus_cpu() == 8 * DEFAULT_WEIGHT,
        Mode::Supaa.focus_io() == 8 * DEFAULT_WEIGHT,
        Mode::SupaaPlus.focus_cpu() > Mode::Supaa.focus_cpu(),
        Mode::SupaaPlus.focus_io() > Mode::Supaa.focus_io(),
        Mode::SupaaPlus.background_cpu() < Mode::Supaa.background_cpu(),
        Mode::SupaaPlus.background_io() < Mode::Supaa.background_io(),
        Mode::SupaaPlus.memory_percent()->0 < Mode::Supaa.memory_percent()->0,
{
}

/// Per-session options the user can toggle.
#[derive(Debug, Clone)]
pub struct ActivateOptions {
    pub lock_workspace: bool,
    pub freeze_background: bool,
}

impl Default for ActivateOptions {
    fn default() -> (r: Self)
        ensures
            !r.lock_workspace,
            !r.freeze_background,
    {
        ActivateOptions { lock_workspace: false, freeze_background: false }
    }
}

/// The lower case of a letter from `A` to `Z` is 32 places on; everything else is its own lower case.
pub proof fn law_letters_are_lowered(name: Seq<char>)
    ensures
        lowered(name).len() == name.len(),
        forall|i: int|
            0 <= i < name.len() ==> #[trigger] lowered(name)[i] as int == if 'A' <= name[i]
                && name[i] <= 'Z' {
                name[i] as int + 32
            } else {
                name[i] as int
            },
{
}

/// These names and no others stand for a mode, in any case.
pub proof fn law_mode_names(name: Seq<char>)
    ensures
        mode_named(name) == Some(Mode::Normal) <==> lowered(name) == "normal"@,
        mode_named(name) == Some(Mode::Supaa) <==> lowered(name) == "supaa"@,
        mode_named(name) == Some(Mode::SupaaPlus) <==> lowered(name) == "supaa++"@ || lowered(name)
            == "supaa_plus"@ || lowered(name) == "supaaplus"@,
{
    reveal_strlit("normal");
    reveal_strlit("supaa");
    reveal_strlit("supaa++");
    reveal_strlit("supaa_plus");
    reveal_strlit("supaaplus");
    assert("normal"@.len() == 6 && "supaa"@.len() == 5 && "supaa++"@.len() == 7
        && "supaa_plus"@.len() == 10 && "supaaplus"@.len() == 9);
}

/// The weights and the share of memory of each mode.
pub proof fn law_weights_of_the_modes(mode: Mode)
    ensures
        mode.focus_cpu() == mode.focus_io(),
        mode.background_cpu() == mode.background_io(),
        match mode {
            Mode::Normal => mode.focus_cpu() == 100 && mode.background_cpu() == 100
                && mode.memory_percent() is None,
            Mode::Supaa => mode.focus_cpu() == 800 && mode.background_cpu() == 20
                && mode.memory_percent() == Some(75u64),
            Mode::SupaaPlus => mode.focus_cpu() == 10000 && mode.background_cpu() == 1
                && mode.memory_percent() == Some(50u64),
        },
{
}

} // verus!

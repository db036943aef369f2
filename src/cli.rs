//! Folding command-line arguments into a patch request.

use vstd::prelude::*;
use crate::register::{PCI_EXP_LNKCTL_ASPM_L0S, PCI_EXP_LNKCTL_ASPM_L1};

verus! {

/// What the command line asks for: the bits to control, their wanted values,
/// and the configuration-space resource to patch.
#[derive(Debug)]
pub struct Args {
    pub mask: u16,
    pub flags: u16,
    pub path: String,
}

/// The kinds of malformed command line.
#[derive(Clone, Copy, Debug, PartialEq, Eq, Structural)]
pub enum ArgErrorKind {
    /// A `--` option that is not one of the four known ones.
    UnrecognizedOption,
    /// A second positional argument.
    PathAlreadySpecified,
    /// No positional argument at all.
    MissingPath,
}

/// A malformed command line, with the argument at fault (empty when the
/// path is missing).
#[derive(Debug)]
pub struct ArgError {
    pub kind: ArgErrorKind,
    pub arg: String,
}

/// Mask, flags and path gathered so far, or the failure met.
pub type ScanState = Result<(u16, u16, Option<Seq<char>>), (ArgErrorKind, Seq<char>)>;

/// Whether `a` starts with two dashes.
pub open spec fn is_long_option(a: Seq<char>) -> bool {
    a.len() >= 2 && a[0] == '-' && a[1] == '-'
}

/// The state after one more argument `a`.
pub open spec fn scan_step(mask: u16, flags: u16, path: Option<Seq<char>>, a: Seq<char>) -> ScanState {
    if a == "--enable-l0s"@ {
        Ok((mask | PCI_EXP_LNKCTL_ASPM_L0S, flags | PCI_EXP_LNKCTL_ASPM_L0S, path))
    } else if a == "--disable-l0s"@ {
        Ok((mask | PCI_EXP_LNKCTL_ASPM_L0S, flags & !PCI_EXP_LNKCTL_ASPM_L0S, path))
    } else if a == "--enable-l1"@ {
        Ok((mask | PCI_EXP_LNKCTL_ASPM_L1, flags | PCI_EXP_LNKCTL_ASPM_L1, path))
    } else if a == "--disable-l1"@ {
        Ok((mask | PCI_EXP_LNKCTL_ASPM_L1, flags & !PCI_EXP_LNKCTL_ASPM_L1, path))
    } else if is_long_option(a) {
        Err((ArgErrorKind::UnrecognizedOption, a))
    } else if path is None {
        Ok((mask, flags, Some(a)))
    } else {
        Err((ArgErrorKind::PathAlreadySpecified, a))
    }
}

/// The state after the arguments `args`, taken from first to last; the
/// first failure stops the scan.
pub open spec fn scan(args: Seq<Seq<char>>) -> ScanState
    decreases args.len(),
{
    if args.len() == 0 {
        Ok((0u16, 0u16, None))
    } else {
        match scan(args.drop_last()) {
            Ok((mask, flags, path)) => scan_step(mask, flags, path, args.last()),
            Err(e) => Err(e),
        }
    }
}

/// The outcome of the command line `args`: mask, flags and path, or the
/// kind of failure and the argument at fault.
pub open spec fn parse(args: Seq<Seq<char>>) -> Result<(u16, u16, Seq<char>), (ArgErrorKind, Seq<char>)> {
    match scan(args) {
        Ok((mask, flags, Some(path))) => Ok((mask, flags, path)),
        Ok((_, _, None)) => Err((ArgErrorKind::MissingPath, Seq::empty())),
        Err(e) => Err(e),
    }
}

/// The character sequences of the arguments.
pub open spec fn views(args: Seq<String>) -> Seq<Seq<char>> {
    args.map_values(|s: String| s@)
}

/// Whether `a` and `b` hold the same characters.
fn same_text(a: &str, b: &str) -> (r: bool)
    ensures
        r == (a@ == b@),
{
    let n = a.unicode_len();
    if n != b.unicode_len() {
        return false;
    }
    let mut i: usize = 0;
    while i < n
        invariant
            n == a@.len(),
            n == b@.len(),
            i <= n,
            forall|j: int| 0 <= j < i ==> a@[j] == b@[j],
        decreases n - i,
    {
        if a.get_char(i) != b.get_char(i) {
            return false;
        }
        i += 1;
    }
    assert(a@ =~= b@);
    true
}

/// Whether `a` starts with two dashes.
fn starts_with_dashes(a: &str) -> (r: bool)
    ensures
        r == is_long_option(a@),
{
    let n = a.unicode_len();
    n >= 2 && a.get_char(0) == '-' && a.get_char(1) == '-'
}

/// Reads the arguments that follow the program name. Each of the four
/// `--enable-*` / `--disable-*` options sets its bit in the mask and sets or
/// clears it in the flags, the last one for a bit winning; exactly one
/// positional argument names the resource.
pub fn parse_args(args: &Vec<String>) -> (r: Result<Args, ArgError>)
    ensures
        match r {
            Ok(a) => parse(views(args@)) == Ok::<(u16, u16, Seq<char>), (ArgErrorKind, Seq<char>)>(
                (a.mask, a.flags, a.path@),
            ),
            Err(e) => parse(views(args@)) == Err::<(u16, u16, Seq<char>), (ArgErrorKind, Seq<char>)>(
                (e.kind, e.arg@),
            ),
        },
{
    let mut path: Option<String> = None;
    let mut flags: u16 = 0;
    let mut mask: u16 = 0;
    let mut i: usize = 0;
    while i < args.len()
        invariant
            i <= args@.len(),
            scan(views(args@).take(i as int)) == Ok::<(u16, u16, Option<Seq<char>>), (ArgErrorKind, Seq<char>)>(
                (mask, flags, match path {
                    Some(p) => Some(p@),
                    None => None,
                }),
            ),
        decreases args@.len() - i,
    {
        let arg = &args[i];
        proof {
            let pre = views(args@).take(i as int + 1);
            assert(pre.drop_last() =~= views(args@).take(i as int));
            assert(pre.last() == arg@);
        }
        let text = arg.as_str();
        if same_text(text, "--enable-l0s") {
            flags = flags | PCI_EXP_LNKCTL_ASPM_L0S;
            mask = mask | PCI_EXP_LNKCTL_ASPM_L0S;
        } else if same_text(text, "--disable-l0s") {
            flags = flags & !PCI_EXP_LNKCTL_ASPM_L0S;
            mask = mask | PCI_EXP_LNKCTL_ASPM_L0S;
        } else if same_text(text, "--enable-l1") {
            flags = flags | PCI_EXP_LNKCTL_ASPM_L1;
            mask = mask | PCI_EXP_LNKCTL_ASPM_L1;
        } else if same_text(text, "--disable-l1") {
            flags = flags & !PCI_EXP_LNKCTL_ASPM_L1;
            mask = mask | PCI_EXP_LNKCTL_ASPM_L1;
        } else if starts_with_dashes(text) {
            proof {
                lemma_scan_stops(views(args@), i as int + 1);
            }
            return Err(ArgError { kind: ArgErrorKind::UnrecognizedOption, arg: arg.clone() });
        } else if path.is_none() {
            path = Some(arg.clone());
        } else {
            proof {
                lemma_scan_stops(views(args@), i as int + 1);
            }
            return Err(ArgError { kind: ArgErrorKind::PathAlreadySpecified, arg: arg.clone() });
        }
        i += 1;
    }
    assert(views(args@).take(i as int) =~= views(args@));
    match path {
        Some(p) => Ok(Args { mask, flags, path: p }),
        None => Err(ArgError { kind: ArgErrorKind::MissingPath, arg: String::new() }),
    }
}

/// Once the scan of a prefix fails, the scan of the whole list fails alike.
proof fn lemma_scan_stops(args: Seq<Seq<char>>, k: int)
    requires
        0 <= k <= args.len(),
        scan(args.take(k)) is Err,
    ensures
        scan(args) == scan(args.take(k)),
    decreases args.len() - k,
{
    if k < args.len() {
        let pre = args.take(k + 1);
        assert(pre.drop_last() =~= args.take(k));
        lemma_scan_stops(args, k + 1);
    } else {
        assert(args.take(k) =~= args);
    }
}

} // verus!

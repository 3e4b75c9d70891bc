//! The shells that are looked for on a Windows-like host, and the name under
//! which a found one is shown.

use vstd::prelude::*;
use crate::text::{chars_of, string_of, texts};

verus! {

/// How many shells the catalog holds.
pub const KNOWN_SHELL_COUNT: usize = 9;

/// The executable names of the known shells, in the order in which they are
/// looked for and reported.
pub open spec fn catalog() -> Seq<Seq<char>> {
    seq![
        "powershell.exe"@,
        "pwsh.exe"@,
        "cmd.exe"@,
        "wsl.exe"@,
        "bash.exe"@,
        "zsh.exe"@,
        "fish.exe"@,
        "nu.exe"@,
        "git.exe"@,
    ]
}

/// The names under which the shells of the catalog are shown, in catalog order.
pub open spec fn display_catalog() -> Seq<Seq<char>> {
    seq![
        "powershell"@,
        "pwsh"@,
        "cmd"@,
        "wsl"@,
        "bash"@,
        "zsh"@,
        "fish"@,
        "nu"@,
        "git"@,
    ]
}

/// The suffix that marks an executable file.
pub open spec fn executable_suffix() -> Seq<char> {
    seq!['.', 'e', 'x', 'e']
}

/// Whether `s` ends in `suffix`.
pub open spec fn ends_with(s: Seq<char>, suffix: Seq<char>) -> bool {
    suffix.len() <= s.len() && s.subrange(s.len() - suffix.len(), s.len() as int) == suffix
}

/// The name shown for an executable: the executable's name without its
/// suffix, or the whole name where it has none.
pub open spec fn display_name(exe: Seq<char>) -> Seq<char> {
    if ends_with(exe, executable_suffix()) {
        exe.subrange(0, exe.len() - executable_suffix().len())
    } else {
        exe
    }
}

/// The executable name at place `i` of the catalog; `None` past its end.
pub fn known_shell(i: usize) -> (name: Option<&'static str>)
    ensures
        i < KNOWN_SHELL_COUNT ==> name is Some && name->0@ == catalog()[i as int],
        i >= KNOWN_SHELL_COUNT ==> name is None,
{
    match i {
        0 => Some("powershell.exe"),
        1 => Some("pwsh.exe"),
        2 => Some("cmd.exe"),
        3 => Some("wsl.exe"),
        4 => Some("bash.exe"),
        5 => Some("zsh.exe"),
        6 => Some("fish.exe"),
        7 => Some("nu.exe"),
        8 => Some("git.exe"),
        _ => None,
    }
}

/// The whole catalog, in order.
pub fn known_shells() -> (out: Vec<String>)
    ensures
        texts(out@) == catalog(),
{
    let mut out: Vec<String> = Vec::new();
    let mut i: usize = 0;
    while i < KNOWN_SHELL_COUNT
        invariant
            i <= KNOWN_SHELL_COUNT,
            texts(out@) == catalog().take(i as int),
        decreases KNOWN_SHELL_COUNT - i,
    {
        match known_shell(i) {
            Some(name) => {
                let owned = name.to_owned();
                assert(catalog().take(i + 1) =~= catalog().take(i as int).push(owned@));
                assert(texts(out@.push(owned)) =~= texts(out@).push(owned@));
                out.push(owned);
            },
            None => {},
        }
        i += 1;
    }
    assert(catalog().take(KNOWN_SHELL_COUNT as int) =~= catalog());
    out
}

/// The name to show for the executable `exe`.
pub fn display_name_of(exe: &str) -> (out: String)
    ensures
        out@ == display_name(exe@),
{
    let chars = chars_of(exe);
    let n = chars.len();
    if n >= 4 && chars[n - 4] == '.' && chars[n - 3] == 'e' && chars[n - 2] == 'x' && chars[n - 1]
        == 'e' {
        assert(chars@.subrange(n - 4, n as int) =~= executable_suffix());
        string_of(&chars, 0, n - 4)
    } else {
        proof {
            if ends_with(exe@, executable_suffix()) {
                let tail = chars@.subrange(n - 4, n as int);
                assert(tail[0] == '.' && tail[1] == 'e' && tail[2] == 'x' && tail[3] == 'e');
            }
            assert(chars@.subrange(0, n as int) =~= chars@);
        }
        string_of(&chars, 0, n)
    }
}

/// Every shell of the catalog is shown under the name that stands at the same
/// place of `display_catalog`.
pub proof fn lemma_display_of_catalog()
    ensures
        catalog().len() == KNOWN_SHELL_COUNT,
        display_catalog().len() == KNOWN_SHELL_COUNT,
        forall|i: int|
            0 <= i < KNOWN_SHELL_COUNT ==> display_name(#[trigger] catalog()[i])
                == display_catalog()[i],
{
    reveal_strlit("powershell.exe");
    reveal_strlit("pwsh.exe");
    reveal_strlit("cmd.exe");
    reveal_strlit("wsl.exe");
    reveal_strlit("bash.exe");
    reveal_strlit("zsh.exe");
    reveal_strlit("fish.exe");
    reveal_strlit("nu.exe");
    reveal_strlit("git.exe");
    reveal_strlit("powershell");
    reveal_strlit("pwsh");
    reveal_strlit("cmd");
    reveal_strlit("wsl");
    reveal_strlit("bash");
    reveal_strlit("zsh");
    reveal_strlit("fish");
    reveal_strlit("nu");
    reveal_strlit("git");
    assert forall|i: int| 0 <= i < KNOWN_SHELL_COUNT implies display_name(
        #[trigger] catalog()[i],
    ) == display_catalog()[i] by {
        let exe = catalog()[i];
        assert(exe.subrange(exe.len() - 4, exe.len() as int) =~= executable_suffix());
        assert(exe.subrange(0, exe.len() - 4) =~= display_catalog()[i]);
    }
}

/// No two shells of the catalog are shown under the same name.
pub proof fn lemma_display_names_differ()
    ensures
        forall|i: int, j: int|
            0 <= i < j < KNOWN_SHELL_COUNT ==> #[trigger] display_catalog()[i]
                != #[trigger] display_catalog()[j],
{
    reveal_strlit("powershell");
    reveal_strlit("pwsh");
    reveal_strlit("cmd");
    reveal_strlit("wsl");
    reveal_strlit("bash");
    reveal_strlit("zsh");
    reveal_strlit("fish");
    reveal_strlit("nu");
    reveal_strlit("git");
    assert forall|i: int, j: int| 0 <= i < j < KNOWN_SHELL_COUNT implies #[trigger] display_catalog()[i]
        != #[trigger] display_catalog()[j] by {
        let a = display_catalog()[i];
        let b = display_catalog()[j];
        assert(a.len() != b.len() || a[0] != b[0] || a[1] != b[1]);
    }
}

} // verus!

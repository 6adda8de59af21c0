//! The installed packages: which package managers are asked, how their
//! listings are counted, and how the counts are summed up in one line.
use crate::number::{decimal, push_decimal};
use crate::text::{chars_of, line_spans, lines};
use vstd::prelude::*;
use vstd::string::StringExecFns;

verus! {

/// The package managers that are asked, in the order in which a summary
/// names them.
#[derive(Clone, Copy, Debug, PartialEq, Eq, Structural)]
pub enum PackageManager {
    Apt,
    Dnf,
    Pacman,
    Snap,
}

impl PackageManager {
    /// The name under which the summary lists the manager.
    pub open spec fn label(self) -> Seq<char> {
        match self {
            PackageManager::Apt => "apt"@,
            PackageManager::Dnf => "dnf"@,
            PackageManager::Pacman => "pacman"@,
            PackageManager::Snap => "snap"@,
        }
    }

    /// The program whose presence shows that the manager is installed.
    pub open spec fn probe(self) -> Seq<char> {
        match self {
            PackageManager::Apt => "dpkg"@,
            PackageManager::Dnf => "dnf"@,
            PackageManager::Pacman => "pacman"@,
            PackageManager::Snap => "snap"@,
        }
    }

    /// The program that lists the installed packages.
    pub open spec fn lister(self) -> Seq<char> {
        match self {
            PackageManager::Apt => "dpkg-query"@,
            PackageManager::Dnf => "dnf"@,
            PackageManager::Pacman => "pacman"@,
            PackageManager::Snap => "snap"@,
        }
    }

    /// The arguments with which the lister prints one line for each package.
    pub open spec fn lister_arguments(self) -> Seq<Seq<char>> {
        match self {
            PackageManager::Apt => seq!["-f"@, ".\n"@, "-W"@],
            PackageManager::Dnf => seq!["list"@, "installed"@, "--quiet"@],
            PackageManager::Pacman => seq!["-Q"@],
            PackageManager::Snap => seq!["list"@],
        }
    }

    /// The name under which the summary lists the manager.
    pub fn name(self) -> (r: &'static str)
        ensures
            r@ == self.label(),
    {
        match self {
            PackageManager::Apt => "apt",
            PackageManager::Dnf => "dnf",
            PackageManager::Pacman => "pacman",
            PackageManager::Snap => "snap",
        }
    }

    /// The program to look up in the search path before the manager is asked.
    pub fn probe_program(self) -> (r: &'static str)
        ensures
            r@ == self.probe(),
    {
        match self {
            PackageManager::Apt => "dpkg",
            PackageManager::Dnf => "dnf",
            PackageManager::Pacman => "pacman",
            PackageManager::Snap => "snap",
        }
    }

    /// The program to run for the list of installed packages.
    pub fn list_program(self) -> (r: &'static str)
        ensures
            r@ == self.lister(),
    {
        match self {
            PackageManager::Apt => "dpkg-query",
            PackageManager::Dnf => "dnf",
            PackageManager::Pacman => "pacman",
            PackageManager::Snap => "snap",
        }
    }

    /// The arguments to run it with.
    pub fn list_arguments(self) -> (r: Vec<&'static str>)
        ensures
            r@.len() == self.lister_arguments().len(),
            forall|i: int| 0 <= i < r@.len() ==> (#[trigger] r@[i])@ == self.lister_arguments()[i],
    {
        let mut r: Vec<&'static str> = Vec::new();
        match self {
            PackageManager::Apt => {
                r.push("-f");
                r.push(".\n");
                r.push("-W");
            },
            PackageManager::Dnf => {
                r.push("list");
                r.push("installed");
                r.push("--quiet");
            },
            PackageManager::Pacman => {
                r.push("-Q");
            },
            PackageManager::Snap => {
                r.push("list");
            },
        }
        r
    }
}

/// A program counts as installed where the lookup ran and ended in success.
/// A lookup that could not be run is handed over as `None`.
pub open spec fn installed(probe: Option<bool>) -> bool {
    probe == Some(true)
}

/// Whether a program is installed, from the outcome of looking it up in the
/// search path: `Some` with whether the lookup ended in success, or `None`
/// where it could not be run.
pub fn is_app_installed(probe: Option<bool>) -> (r: bool)
    ensures
        r == installed(probe),
{
    match probe {
        Some(found) => found,
        None => false,
    }
}

/// The number of packages of one manager: the number of lines of its
/// listing. A manager that is not installed, or whose listing could not be
/// had, counts none.
pub open spec fn package_count(probe: Option<bool>, listing: Option<&str>) -> nat {
    match listing {
        Some(text) => if installed(probe) {
            lines(text@).len()
        } else {
            0
        },
        None => 0,
    }
}

/// The number of lines of a text.
pub fn count_lines(text: &str) -> (r: usize)
    ensures
        r == lines(text@).len(),
{
    let v = chars_of(text);
    let found = line_spans(&v);
    assert(crate::text::texts(found@, v@).len() == found@.len());
    found.len()
}

/// Counts the packages of one manager.
fn count_packages(probe: Option<bool>, listing: Option<&str>) -> (r: usize)
    ensures
        r == package_count(probe, listing),
{
    if !is_app_installed(probe) {
        return 0;
    }
    match listing {
        Some(text) => count_lines(text),
        None => 0,
    }
}

/// The number of packages installed through apt, from the outcome of the
/// probe and the manager's listing.
pub fn count_apt_packages(probe: Option<bool>, listing: Option<&str>) -> (r: usize)
    ensures
        r == package_count(probe, listing),
{
    count_packages(probe, listing)
}

/// The number of packages installed through dnf, from the outcome of the
/// probe and the manager's listing.
pub fn count_dnf_packages(probe: Option<bool>, listing: Option<&str>) -> (r: usize)
    ensures
        r == package_count(probe, listing),
{
    count_packages(probe, listing)
}

/// The number of packages installed through pacman, from the outcome of the
/// probe and the manager's listing.
pub fn count_pacman_packages(probe: Option<bool>, listing: Option<&str>) -> (r: usize)
    ensures
        r == package_count(probe, listing),
{
    count_packages(probe, listing)
}

/// The number of packages installed through snap, from the outcome of the
/// probe and the manager's listing.
pub fn count_snap_packages(probe: Option<bool>, listing: Option<&str>) -> (r: usize)
    ensures
        r == package_count(probe, listing),
{
    count_packages(probe, listing)
}

/// What one manager adds to the summary: its name, a colon, the count and a
/// blank; nothing where it counts no package.
pub open spec fn summary_entry(manager: PackageManager, count: nat) -> Seq<char> {
    if count > 0 {
        manager.label() + seq![':'] + decimal(count) + seq![' ']
    } else {
        Seq::empty()
    }
}

/// The summary of the counts: the entries of the managers in their order.
pub open spec fn package_summary(apt: nat, dnf: nat, pacman: nat, snap: nat) -> Seq<char> {
    summary_entry(PackageManager::Apt, apt) + summary_entry(PackageManager::Dnf, dnf)
        + summary_entry(PackageManager::Pacman, pacman) + summary_entry(PackageManager::Snap, snap)
}

/// Appends what one manager adds to the summary.
fn push_entry(out: &mut String, manager: PackageManager, count: usize)
    ensures
        final(out)@ == old(out)@ + summary_entry(manager, count as nat),
{
    if count > 0 {
        proof {
            reveal_strlit(":");
            reveal_strlit(" ");
        }
        out.append(manager.name());
        out.append(":");
        push_decimal(out, count as u64);
        out.append(" ");
        assert(":"@ =~= seq![':']);
        assert(" "@ =~= seq![' ']);
        assert(final(out)@ =~= old(out)@ + summary_entry(manager, count as nat));
    } else {
        assert(final(out)@ =~= old(out)@ + summary_entry(manager, count as nat));
    }
}

/// The package counts in one line: for each manager that counts a package
/// its name and count, in the order apt, dnf, pacman, snap.
pub fn get_formatted_package_count(apt: usize, dnf: usize, pacman: usize, snap: usize) -> (r:
    String)
    ensures
        r@ == package_summary(apt as nat, dnf as nat, pacman as nat, snap as nat),
{
    let mut out = String::new();
    push_entry(&mut out, PackageManager::Apt, apt);
    push_entry(&mut out, PackageManager::Dnf, dnf);
    push_entry(&mut out, PackageManager::Pacman, pacman);
    push_entry(&mut out, PackageManager::Snap, snap);
    assert(out@ =~= package_summary(apt as nat, dnf as nat, pacman as nat, snap as nat));
    out
}

/// A manager whose probe did not end in success counts no package, whatever
/// its listing holds, and a manager that counts none leaves no trace in the
/// summary.
pub proof fn lemma_absent_manager_is_silent(
    probe: Option<bool>,
    listing: Option<&str>,
    manager: PackageManager,
    dnf: nat,
    pacman: nat,
    snap: nat,
)
    requires
        !installed(probe),
    ensures
        package_count(probe, listing) == 0,
        summary_entry(manager, package_count(probe, listing)) == Seq::<char>::empty(),
        package_summary(package_count(probe, listing), dnf, pacman, snap) == package_summary(
            0,
            dnf,
            pacman,
            snap,
        ),
        package_summary(0, dnf, pacman, snap) == summary_entry(PackageManager::Dnf, dnf)
            + summary_entry(PackageManager::Pacman, pacman) + summary_entry(
            PackageManager::Snap,
            snap,
        ),
{
    assert(package_summary(0, dnf, pacman, snap) =~= summary_entry(PackageManager::Dnf, dnf)
        + summary_entry(PackageManager::Pacman, pacman) + summary_entry(
        PackageManager::Snap,
        snap,
    ));
}

} // verus!

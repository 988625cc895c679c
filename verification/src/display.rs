//! Human-readable renderings of the manifests, as the `show` command prints
//! them. Each type gets a method returning the text, pinned down exactly by a
//! spec function.

use vstd::prelude::*;
use crate::config::{AppConfig, AppModel, DriverConfig, DriverModel, OSConfig, OSModel,
    PlatformModel, PlatformSpecific};
use crate::num::{int_chars, push_int};

verus! {

/// One indented bullet line per name.
pub open spec fn items_block(l: Seq<Seq<char>>) -> Seq<char>
    decreases l.len(),
{
    if l.len() == 0 {
        Seq::<char>::empty()
    } else {
        items_block(l.drop_last()) + "      - "@ + l.last() + "\n"@
    }
}

/// A requirement list: `None` when empty, else its bullet lines on fresh
/// lines.
pub open spec fn list_block(l: Seq<Seq<char>>) -> Seq<char> {
    if l.len() == 0 {
        "None\n"@
    } else {
        "\n"@ + items_block(l)
    }
}

/// The rendering of the platform configuration.
pub open spec fn display_platform(p: PlatformModel) -> Seq<char> {
    match p {
        PlatformModel::AVR(a) => "    [AVR]:\n        F_CPU: "@ + int_chars(a.f_cpu as int)
            + "\n        MCU: "@ + a.mcu,
    }
}

/// The rendering of an OS manifest.
pub open spec fn display_os(m: OSModel) -> Seq<char> {
    "[OSConfig]\n    Drivers:\n"@ + items_block(m.drivers) + "    Apps:\n"@ + items_block(m.apps)
        + display_platform(m.platform_spec)
}

/// The rendering of an app manifest.
pub open spec fn display_app(m: AppModel) -> Seq<char> {
    "[AppConfig]\n    Name: "@ + m.name + "\n    Provides: "@ + m.provides
        + "\n    Requires apps: "@ + list_block(m.requires_apps) + "    Requires drivers: "@
        + list_block(m.requires_drivers)
}

/// The rendering of a driver manifest.
pub open spec fn display_driver(m: DriverModel) -> Seq<char> {
    "[DriverConfig]\n    Name: "@ + m.name + "\n    Provides: "@ + m.provides
        + "\n    Requires: "@ + list_block(m.requires)
}

/// Appends one bullet line per name to `out`.
fn push_items_block(l: &Vec<String>, out: &mut String)
    ensures
        final(out)@ == old(out)@ + items_block(l.deep_view()),
{
    let ghost dv = l.deep_view();
    let n = l.len();
    let mut i: usize = 0;
    proof {
        assert(dv.subrange(0, 0).len() == 0);
        assert(out@ + items_block(dv.subrange(0, 0)) =~= out@);
    }
    while i < n
        invariant
            n == l@.len(),
            i <= n,
            out@ == old(out)@ + items_block(dv.subrange(0, i as int)),
            dv == l.deep_view(),
        decreases n - i,
    {
        let p: &String = &l[i];
        proof {
            assert(dv[i as int] == l@[i as int]@);
        }
        out.append("      - ");
        out.append(p.as_str());
        out.append("\n");
        proof {
            let pre = dv.subrange(0, i as int);
            let cur = dv.subrange(0, i + 1 as int);
            assert(cur.drop_last() =~= pre);
            assert(cur.last() == dv[i as int]);
            assert(out@ =~= old(out)@ + items_block(cur));
        }
        i += 1;
    }
    proof {
        assert(dv.subrange(0, n as int) =~= dv);
    }
}

/// Appends a requirement list's rendering to `out`.
fn push_list_block(l: &Vec<String>, out: &mut String)
    ensures
        final(out)@ == old(out)@ + list_block(l.deep_view()),
{
    if l.len() == 0 {
        out.append("None\n");
        proof {
            assert(l.deep_view().len() == 0);
        }
    } else {
        out.append("\n");
        push_items_block(l, out);
        assert(out@ =~= old(out)@ + list_block(l.deep_view()));
    }
}

impl PlatformSpecific {
    /// The text the `show` command prints for the platform configuration.
    pub fn display_string(&self) -> (r: String)
        ensures
            r@ == display_platform(self@),
    {
        match self {
            PlatformSpecific::AVR(c) => {
                let mut out = String::from_str("    [AVR]:\n        F_CPU: ");
                push_int(c.f_cpu, &mut out);
                out.append("\n        MCU: ");
                out.append(c.mcu.as_str());
                assert(out@ =~= display_platform(self@));
                out
            },
        }
    }
}

impl OSConfig {
    /// The text the `show` command prints for the OS manifest.
    pub fn display_string(&self) -> (r: String)
        ensures
            r@ == display_os(self@),
    {
        let mut out = String::from_str("[OSConfig]\n    Drivers:\n");
        push_items_block(&self.drivers, &mut out);
        out.append("    Apps:\n");
        push_items_block(&self.apps, &mut out);
        let plat = self.platform_spec.display_string();
        out.append(plat.as_str());
        assert(out@ =~= display_os(self@));
        out
    }
}

impl AppConfig {
    /// The text the `show` command prints for an app manifest.
    pub fn display_string(&self) -> (r: String)
        ensures
            r@ == display_app(self@),
    {
        let mut out = String::from_str("[AppConfig]\n    Name: ");
        out.append(self.name.as_str());
        out.append("\n    Provides: ");
        out.append(self.provides.as_str());
        out.append("\n    Requires apps: ");
        push_list_block(&self.requires_apps, &mut out);
        out.append("    Requires drivers: ");
        push_list_block(&self.requires_drivers, &mut out);
        assert(out@ =~= display_app(self@));
        out
    }
}

impl DriverConfig {
    /// The text the `show` command prints for a driver manifest.
    pub fn display_string(&self) -> (r: String)
        ensures
            r@ == display_driver(self@),
    {
        let mut out = String::from_str("[DriverConfig]\n    Name: ");
        out.append(self.name.as_str());
        out.append("\n    Provides: ");
        out.append(self.provides.as_str());
        out.append("\n    Requires: ");
        push_list_block(&self.requires, &mut out);
        assert(out@ =~= display_driver(self@));
        out
    }
}

} // verus!

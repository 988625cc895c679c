//! The build-manifest generator: derives, from the registered apps' `provides`
//! entry points, the header handed to the external build tool, plus the
//! platform variables for its invocation.

use vstd::prelude::*;
use crate::config::{AppConfig, PlatformModel, PlatformSpecific};
use crate::num::{int_chars, push_int};

verus! {

/// One forward declaration per provided entry point, in manifest order.
pub open spec fn decls_text(ps: Seq<Seq<char>>) -> Seq<char>
    decreases ps.len(),
{
    if ps.len() == 0 {
        Seq::<char>::empty()
    } else {
        decls_text(ps.drop_last()) + "void "@ + ps.last() + "();\n"@
    }
}

/// The comma-separated task list, in the same order as the declarations and
/// with no trailing separator.
pub open spec fn tasks_text(ps: Seq<Seq<char>>) -> Seq<char>
    decreases ps.len(),
{
    if ps.len() == 0 {
        Seq::<char>::empty()
    } else if ps.len() == 1 {
        ps[0]
    } else {
        tasks_text(ps.drop_last()) + ", "@ + ps.last()
    }
}

/// The whole build header: include guard, one forward declaration per entry
/// point, and the task-list macro.
pub open spec fn header_text(ps: Seq<Seq<char>>) -> Seq<char> {
    "#ifndef __MODS_H__\n#define __MODS_H__\n"@ + decls_text(ps) + "\n#define __TASKS__ "@
        + tasks_text(ps) + "\n#endif"@
}

/// The `provides` entry point of each app manifest, in manifest order.
pub fn collect_provides(apps: &Vec<AppConfig>) -> (r: Vec<String>)
    ensures
        r@.len() == apps@.len(),
        forall|k: int| 0 <= k < r@.len() ==> r.deep_view()[k] == apps@[k]@.provides,
{
    let mut r: Vec<String> = Vec::new();
    let n = apps.len();
    let mut i: usize = 0;
    while i < n
        invariant
            n == apps@.len(),
            i <= n,
            r@.len() == i,
            forall|k: int| 0 <= k < i ==> r.deep_view()[k] == apps@[k]@.provides,
        decreases n - i,
    {
        let ghost r0 = r.deep_view();
        r.push(apps[i].provides.clone());
        proof {
            assert(r.deep_view() =~= r0.push(apps@[i as int]@.provides));
        }
        i += 1;
    }
    r
}

/// Generates the build header for the given entry points.
pub fn generate_build_manifest(provides: &Vec<String>) -> (r: String)
    ensures
        r@ == header_text(provides.deep_view()),
{
    let ghost ps = provides.deep_view();
    let mut decls = String::new();
    let mut tasks = String::new();
    let n = provides.len();
    let mut i: usize = 0;
    proof {
        assert(ps.subrange(0, 0).len() == 0);
    }
    while i < n
        invariant
            n == provides@.len(),
            i <= n,
            decls@ == decls_text(ps.subrange(0, i as int)),
            tasks@ == tasks_text(ps.subrange(0, i as int)),
            ps == provides.deep_view(),
        decreases n - i,
    {
        let p: &String = &provides[i];
        proof {
            assert(ps[i as int] == provides@[i as int]@);
        }
        decls.append("void ");
        decls.append(p.as_str());
        decls.append("();\n");
        if i > 0 {
            tasks.append(", ");
        }
        tasks.append(p.as_str());
        proof {
            let pre = ps.subrange(0, i as int);
            let cur = ps.subrange(0, i + 1 as int);
            assert(cur.drop_last() =~= pre);
            assert(cur.last() == ps[i as int]);
            assert(decls@ =~= decls_text(cur));
            if i == 0 {
                assert(cur.len() == 1);
                assert(cur[0] == ps[0]);
                assert(tasks@ =~= tasks_text(cur));
            } else {
                assert(cur.len() >= 2);
                assert(tasks@ =~= tasks_text(cur));
            }
        }
        i += 1;
    }
    proof {
        assert(ps.subrange(0, n as int) =~= ps);
    }
    let mut out = String::new();
    out.append("#ifndef __MODS_H__\n#define __MODS_H__\n");
    out.append(decls.as_str());
    out.append("\n#define __TASKS__ ");
    out.append(tasks.as_str());
    out.append("\n#endif");
    assert(out@ =~= header_text(ps));
    out
}

impl PlatformSpecific {
    /// The variable assignments handed to the external build tool, derived
    /// from the platform parameters.
    pub fn build_vars(&self) -> (r: Vec<String>)
        ensures
            self@ matches PlatformModel::AVR(a) ==> r.deep_view() =~= seq![
                ("F_CPU="@ + int_chars(a.f_cpu as int)),
                ("MCU="@ + a.mcu),
            ],
    {
        match self {
            PlatformSpecific::AVR(c) => {
                let mut s1 = String::from_str("F_CPU=");
                push_int(c.f_cpu, &mut s1);
                let mut s2 = String::from_str("MCU=");
                s2.append(c.mcu.as_str());
                let mut r: Vec<String> = Vec::new();
                r.push(s1);
                r.push(s2);
                proof {
                    assert(r.deep_view().len() == 2);
                    assert(r.deep_view()[0] == r@[0]@);
                    assert(r.deep_view()[1] == r@[1]@);
                }
                r
            },
        }
    }
}

} // verus!

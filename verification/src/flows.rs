//! The pure decision steps of the add and remove flows. The surrounding
//! process performs the device-database, directory and loader calls and hands
//! their plain results in; every decision about them is made and verified
//! here.

use vstd::prelude::*;

use crate::Error;
use crate::matcher::{selected, select_candidates};
use crate::modalias::Modalias;
use crate::sysname::{last_segment, sysname_from_path, sysname_layout};

verus! {

/// The subsystem label of the target device class.
pub open spec fn target_class() -> Seq<char> {
    seq!['h', 'i', 'd']
}

/// Is this declared subsystem the target class?
pub open spec fn is_target(o: Option<String>) -> bool {
    match o {
        Some(s) => s@ == target_class(),
        None => false,
    }
}

/// Does the label equal the target class?
fn is_target_label(s: &str) -> (r: bool)
    ensures
        r == (s@ == target_class()),
{
    proof {
        assert(target_class().len() == 3);
    }
    if s.unicode_len() != 3 {
        return false;
    }
    let r = s.get_char(0) == 'h' && s.get_char(1) == 'i' && s.get_char(2) == 'd';
    proof {
        if r {
            assert(s@ =~= target_class());
        } else {
            if s@ == target_class() {
                assert(s@[0] == target_class()[0]);
                assert(s@[1] == target_class()[1]);
                assert(s@[2] == target_class()[2]);
            }
        }
    }
    r
}

/// The ancestor walk of resolution: given the declared subsystems of a
/// device and its ancestors, nearest first, the index of the first entry of
/// the target class — the device to resolve to — or `None` when the path
/// does not lead to a target-class device.
pub fn find_target_index(subsystems: &Vec<Option<String>>) -> (r: Option<usize>)
    ensures
        match r {
            Some(i) => i < subsystems@.len() && is_target(subsystems@[i as int]) && forall|j: int|
                0 <= j < i ==> !is_target(subsystems@[j]),
            None => forall|j: int| 0 <= j < subsystems@.len() ==> !is_target(subsystems@[j]),
        },
{
    let mut i: usize = 0;
    while i < subsystems.len()
        invariant
            0 <= i <= subsystems@.len(),
            forall|j: int| 0 <= j < i ==> !is_target(subsystems@[j]),
        decreases subsystems@.len() - i,
    {
        match &subsystems[i] {
            Some(s) => {
                if is_target_label(s.as_str()) {
                    return Some(i);
                }
            },
            None => {},
        }
        i = i + 1;
    }
    None
}

/// The built-in default location of candidate program files: a local build
/// directory when one is present, the installed location otherwise.
pub fn default_bpf_dir(local_exists: bool) -> (r: String)
    ensures
        r@ == if local_exists {
            "target/bpf"@
        } else {
            "/usr/local/lib/firmware/hid/bpf"@
        },
{
    if local_exists {
        "target/bpf".to_owned()
    } else {
        "/usr/local/lib/firmware/hid/bpf".to_owned()
    }
}

/// The directory the add flow matches against: the configured override when
/// one was given, the built-in default otherwise.
pub fn choose_bpf_dir(configured: Option<String>, local_exists: bool) -> (r: String)
    ensures
        match configured {
            Some(d) => r@ == d@,
            None => r@ == if local_exists {
                "target/bpf"@
            } else {
                "/usr/local/lib/firmware/hid/bpf"@
            },
        },
{
    match configured {
        Some(d) => d,
        None => default_bpf_dir(local_exists),
    }
}

/// The candidate plan of the add flow. `listing` is the directory's regular
/// file names, or `None` when the directory does not exist — then the flow
/// is a no-op, not an error. A requested program name bypasses matching and
/// is selected alone, existence unchecked; otherwise exactly the matching
/// names are selected, in the listing's order.
pub fn plan_add(listing: Option<Vec<String>>, m: &Modalias, prog: Option<String>) -> (r: Vec<
    String,
>)
    ensures
        ({
            match listing {
                None => r.deep_view() == Seq::<Seq<char>>::empty(),
                Some(l) => match prog {
                    Some(p) => r.deep_view() == seq![p@],
                    None => r.deep_view() == selected(l.deep_view(), *m),
                },
            }
        }),
{
    match listing {
        None => {
            let r: Vec<String> = Vec::new();
            proof {
                assert(r.deep_view() =~= Seq::<Seq<char>>::empty());
            }
            r
        },
        Some(l) => {
            match prog {
                Some(p) => {
                    let ghost pv = p@;
                    let mut r: Vec<String> = Vec::new();
                    r.push(p);
                    proof {
                        assert(r.deep_view() =~= seq![pv]);
                    }
                    r
                },
                None => select_candidates(&l, m),
            }
        },
    }
}

/// The name the remove flow purges. Normal resolution is used when it
/// succeeded; when it failed because the device record no longer exists, the
/// logical name is recovered from the raw path instead; any other resolution
/// failure propagates.
pub fn remove_target(resolved: Result<String, Error>, raw_path: &str) -> (r: Result<String, Error>)
    ensures
        match resolved {
            Ok(n) => r matches Ok(rn) && rn@ == n@,
            Err(e) => {
                if e == Error::NoSuchDevice {
                    match r {
                        Ok(rn) => rn@ == last_segment(raw_path@) && sysname_layout(rn@),
                        Err(e2) => e2 == Error::InvalidInput && !sysname_layout(
                            last_segment(raw_path@),
                        ),
                    }
                } else {
                    r == Err::<String, Error>(e)
                }
            },
        },
{
    match resolved {
        Ok(n) => Ok(n),
        Err(e) => {
            if e == Error::NoSuchDevice {
                sysname_from_path(raw_path)
            } else {
                Err(e)
            }
        },
    }
}

} // verus!

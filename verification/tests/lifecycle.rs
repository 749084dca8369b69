use udev_hid_bpf::flows::{
    choose_bpf_dir, default_bpf_dir, find_target_index, plan_add, remove_target,
};
use udev_hid_bpf::modalias::Modalias;
use udev_hid_bpf::sysname::{id_from_sysname, is_valid_sysname, sysname_from_path};
use udev_hid_bpf::Error;

fn identity() -> Modalias {
    Modalias {
        bus: 0x0003,
        group: 0x0001,
        vid: 0x04d9,
        pid: 0xa09f,
    }
}

#[test]
fn test_sysname_resolution() {
    let syspath = "/sys/blah/1234";
    let sysname = sysname_from_path(syspath);
    assert!(sysname.is_err());

    let syspath = "/sys/blah/0003:04F3:2D4A.0001";
    let sysname = sysname_from_path(syspath);
    assert!(sysname.unwrap() == "0003:04F3:2D4A.0001");

    let syspath = "/sys/blah/0003:04F3:2D4A-0001";
    let sysname = sysname_from_path(syspath);
    assert!(sysname.is_err());
}

#[test]
fn sysname_layout_is_exact() {
    assert!(is_valid_sysname("0003:04F3:2D4A.0001"));
    assert!(is_valid_sysname("0003:045E:07A5.000B"));
    // wrong separator pattern
    assert!(!is_valid_sysname("0003:04F3:2D4A-0001"));
    assert!(!is_valid_sysname("0003.04F3.2D4A.0001"));
    assert!(!is_valid_sysname("0003:04F3.2D4A:0001"));
    // wrong segment length
    assert!(!is_valid_sysname("003:04F3:2D4A.0001"));
    assert!(!is_valid_sysname("0003:04F3:2D4A.00011"));
    assert!(!is_valid_sysname("0003:04F3:2D4A.001"));
    // not hex
    assert!(!is_valid_sysname("000G:04F3:2D4A.0001"));
    assert!(!is_valid_sysname(""));
}

#[test]
fn remove_flow_uses_resolution_when_it_succeeded() {
    let r = remove_target(Ok(String::from("0003:045E:07A5.000B")), "/ignored");
    assert_eq!(r, Ok(String::from("0003:045E:07A5.000B")));
}

#[test]
fn remove_flow_falls_back_when_the_record_is_gone() {
    // the device record no longer exists, but the path still encodes a valid
    // logical name: removal succeeds via fallback with that exact name
    let r = remove_target(
        Err(Error::NoSuchDevice),
        "/sys/bus/hid/devices/0003:04F3:2D4A.0001",
    );
    assert_eq!(r, Ok(String::from("0003:04F3:2D4A.0001")));

    // no valid logical name in the path either
    let r = remove_target(Err(Error::NoSuchDevice), "/sys/blah/1234");
    assert_eq!(r, Err(Error::InvalidInput));
}

#[test]
fn remove_flow_propagates_other_failures() {
    let r = remove_target(
        Err(Error::NotATargetDevice),
        "/sys/bus/hid/devices/0003:04F3:2D4A.0001",
    );
    assert_eq!(r, Err(Error::NotATargetDevice));
}

#[test]
fn resolution_walk_picks_nearest_target_ancestor() {
    let chain = vec![
        Some(String::from("hidraw")),
        None,
        Some(String::from("hid")),
        Some(String::from("hid")),
        Some(String::from("usb")),
    ];
    assert_eq!(find_target_index(&chain), Some(2));
    let chain = vec![Some(String::from("hid"))];
    assert_eq!(find_target_index(&chain), Some(0));
    let chain = vec![Some(String::from("usb")), None];
    assert_eq!(find_target_index(&chain), None);
    assert_eq!(find_target_index(&Vec::new()), None);
}

#[test]
fn add_plan_on_missing_directory_is_empty() {
    // a missing program directory is a no-op, not an error
    let r = plan_add(None, &identity(), None);
    assert!(r.is_empty());
    let r = plan_add(None, &identity(), Some(String::from("explicit.bpf.o")));
    assert!(r.is_empty());
}

#[test]
fn add_plan_with_requested_program_bypasses_matching() {
    let listing = vec![String::from("b0003g0001v000004D9p0000A09F-x.bpf.o")];
    let r = plan_add(
        Some(listing),
        &identity(),
        Some(String::from("chosen.bpf.o")),
    );
    assert_eq!(r, vec![String::from("chosen.bpf.o")]);
}

#[test]
fn add_plan_without_request_selects_matches() {
    let listing = vec![
        String::from("b0003g0001v000004D9p0000A09F-x.bpf.o"),
        String::from("b0009g0001v000004D9p0000A09F-y.bpf.o"),
        String::from("b*g*v*p*-z.bpf.o"),
    ];
    let r = plan_add(Some(listing), &identity(), None);
    assert_eq!(
        r,
        vec![
            String::from("b0003g0001v000004D9p0000A09F-x.bpf.o"),
            String::from("b*g*v*p*-z.bpf.o"),
        ]
    );
}

#[test]
fn numeric_id_comes_from_the_trailing_segment() {
    assert_eq!(id_from_sysname("0003:04F3:2D4A.0001"), Ok(1));
    assert_eq!(id_from_sysname("0003:045E:07A5.000B"), Ok(0x000b));
    assert_eq!(id_from_sysname("0003:04F3:2D4A.FFFF"), Ok(0xffff));
    // lowercase hex is accepted by the numeric parse
    assert_eq!(id_from_sysname("0003:04F3:2D4A.00ff"), Ok(0xff));
    // too short, not hex, or too large
    assert_eq!(id_from_sysname("0003:04F3:2D4A."), Err(Error::MalformedSysname));
    assert_eq!(id_from_sysname("short"), Err(Error::MalformedSysname));
    assert_eq!(
        id_from_sysname("0003:04F3:2D4A.00G1"),
        Err(Error::MalformedSysname)
    );
    assert_eq!(
        id_from_sysname("0003:04F3:2D4A.FFFFFFFFF"),
        Err(Error::MalformedSysname)
    );
}

#[test]
fn bpf_dir_choice() {
    assert_eq!(default_bpf_dir(true), String::from("target/bpf"));
    assert_eq!(
        default_bpf_dir(false),
        String::from("/usr/local/lib/firmware/hid/bpf")
    );
    assert_eq!(
        choose_bpf_dir(Some(String::from("/etc/hid-bpf")), true),
        String::from("/etc/hid-bpf")
    );
    assert_eq!(choose_bpf_dir(None, false), String::from("/usr/local/lib/firmware/hid/bpf"));
}

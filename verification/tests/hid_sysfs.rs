use std::path::Path;
use razer::hid::sysfs::MAX_ANCESTOR_WALK;
use razer::hid::UsbInterfaceInfo;

#[test]
fn interface_info_is_comparable_by_value() {
    let a = UsbInterfaceInfo {
        vendor_id: 0x1532,
        product_id: 0x028D,
        interface_number: 3,
        interface_protocol: 0x02,
    };
    let b = a.clone();
    assert_eq!(a, b);
    let c = UsbInterfaceInfo {
        interface_number: 0,
        ..a.clone()
    };
    assert_ne!(a, c);
}

#[test]
fn ancestor_walk_is_bounded() {
    assert!(MAX_ANCESTOR_WALK > 0 && MAX_ANCESTOR_WALK <= 32);

    let hid_device = Path::new(
        "/sys/devices/pci0000:00/0000:00:14.0/usb1/1-2/1-2.3/1-2.3:1.3/0003:1532:028D.0004",
    );
    let depth_to_interface = hid_device
        .ancestors()
        .position(|p| p.file_name().is_some_and(|n| n == "1-2.3:1.3"))
        .expect("the interface directory is an ancestor");
    assert_eq!(depth_to_interface, 1, "the interface is the direct parent");
    assert!(
        hid_device.ancestors().count() <= MAX_ANCESTOR_WALK,
        "a real sysfs path must fit inside the bound with room to spare"
    );
}

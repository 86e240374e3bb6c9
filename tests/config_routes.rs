use msi_cap::config::{InterruptRoute, IrqfdAction, MsiConfig, MsiRoutingEntry};
use std::collections::HashMap;

fn routes(gsis: &[u32]) -> Vec<InterruptRoute> {
    gsis.iter().map(|g| InterruptRoute { gsi: *g }).collect()
}

#[test]
fn single_vector_enable_end_to_end() {
    let mut table: HashMap<u32, MsiRoutingEntry> = HashMap::new();
    let mut cfg = MsiConfig::new(0x0, routes(&[24]));
    assert_eq!(cfg.num_enabled_vectors(), 1);
    assert_eq!(cfg.size(), 10);
    let _ = cfg.update(0x4, &[0x00, 0x00, 0xe0, 0xfe], &mut table);
    let _ = cfg.update(0x8, &[0x41, 0x00], &mut table);
    assert!(table.is_empty());
    let out = cfg.update(0x2, &[0x01, 0x00], &mut table);
    assert_eq!(out.access, Ok(()));
    assert_eq!(out.irqfd, IrqfdAction::Register);
    assert!(cfg.enabled());
    assert_eq!(table.len(), 1);
    assert_eq!(
        table[&24],
        MsiRoutingEntry { gsi: 24, address_lo: 0xfee0_0000, address_hi: 0, data: 0x41 }
    );
}

#[test]
fn enable_installs_one_entry_per_unmasked_vector() {
    let mut table: HashMap<u32, MsiRoutingEntry> = HashMap::new();
    table.insert(5, MsiRoutingEntry { gsi: 5, address_lo: 1, address_hi: 2, data: 3 });
    let mut cfg = MsiConfig::new(0x120, routes(&[40, 41, 42, 43]));
    let _ = cfg.update(0x8, &[0x10, 0x00], &mut table);
    let _ = cfg.update(0xc, &[0x04, 0, 0, 0], &mut table);
    let out = cfg.update(0x2, &[0x21, 0x00], &mut table);
    assert_eq!(out.irqfd, IrqfdAction::Register);
    assert_eq!(table.len(), 4);
    assert_eq!(table[&40].data, 0x10);
    assert_eq!(table[&41].data, 0x11);
    assert!(!table.contains_key(&42));
    assert_eq!(table[&43].data, 0x13);
    assert_eq!(table[&5], MsiRoutingEntry { gsi: 5, address_lo: 1, address_hi: 2, data: 3 });
}

#[test]
fn disable_removes_every_gsi() {
    let mut table: HashMap<u32, MsiRoutingEntry> = HashMap::new();
    table.insert(9, MsiRoutingEntry { gsi: 9, address_lo: 0, address_hi: 0, data: 0 });
    let mut cfg = MsiConfig::new(0x10, routes(&[30, 31]));
    let _ = cfg.update(0x2, &[0x11, 0x00], &mut table);
    assert_eq!(table.len(), 3);
    let out = cfg.update(0x2, &[0x10, 0x00], &mut table);
    assert_eq!(out.irqfd, IrqfdAction::Unregister);
    assert!(!cfg.enabled());
    assert_eq!(table.len(), 1);
    assert!(table.contains_key(&9));
    let out = cfg.update(0x2, &[0x10, 0x00], &mut table);
    assert_eq!(out.irqfd, IrqfdAction::Keep);
}

#[test]
fn masked_vector_never_installed_while_enabled() {
    let mut table: HashMap<u32, MsiRoutingEntry> = HashMap::new();
    let mut cfg = MsiConfig::new(0x110, routes(&[50, 51]));
    let _ = cfg.update(0xc, &[0x02, 0, 0, 0], &mut table);
    let _ = cfg.update(0x2, &[0x11, 0x00], &mut table);
    assert!(cfg.vector_masked(1));
    assert!(table.contains_key(&50));
    assert!(!table.contains_key(&51));
    let out = cfg.update(0x8, &[0x20, 0x00], &mut table);
    assert_eq!(out.irqfd, IrqfdAction::Keep);
    assert!(!table.contains_key(&51));
    assert_eq!(table[&50].data, 0x20);
}

#[test]
fn masking_after_install_removes_entry() {
    let mut table: HashMap<u32, MsiRoutingEntry> = HashMap::new();
    let mut cfg = MsiConfig::new(0x110, routes(&[60, 61]));
    let _ = cfg.update(0x2, &[0x11, 0x00], &mut table);
    assert_eq!(table[&61].data, 1);
    let _ = cfg.update(0xc, &[0x02, 0, 0, 0], &mut table);
    assert!(!table.contains_key(&61));
    let _ = cfg.update(0x8, &[0x40, 0x00], &mut table);
    assert!(!table.contains_key(&61));
    assert_eq!(table[&60].data, 0x40);
    let _ = cfg.update(0xc, &[0x00, 0, 0, 0], &mut table);
    assert_eq!(table[&61].data, 0x41);
}

#[test]
fn disjoint_devices_share_table() {
    let mut table: HashMap<u32, MsiRoutingEntry> = HashMap::new();
    let mut a = MsiConfig::new(0x10, routes(&[1, 2]));
    let mut b = MsiConfig::new(0x0, routes(&[3]));
    let _ = a.update(0x2, &[0x11, 0x00], &mut table);
    let _ = b.update(0x2, &[0x01, 0x00], &mut table);
    let _ = a.update(0x8, &[0x30, 0x00], &mut table);
    assert_eq!(table.len(), 3);
    assert_eq!(table[&1].data, 0x30);
    assert_eq!(table[&2].data, 0x31);
    assert_eq!(table[&3].data, 0x0);
    let _ = b.update(0x2, &[0x00, 0x00], &mut table);
    assert_eq!(table.len(), 2);
    assert!(!table.contains_key(&3));
}

#[test]
fn invalid_write_still_refreshes_routes() {
    let mut table: HashMap<u32, MsiRoutingEntry> = HashMap::new();
    let mut cfg = MsiConfig::new(0x0, routes(&[7]));
    let _ = cfg.update(0x2, &[0x01, 0x00], &mut table);
    let out = cfg.update(0x6, &[0x01, 0x00], &mut table);
    assert!(out.access.is_err());
    assert_eq!(out.irqfd, IrqfdAction::Keep);
    assert_eq!(table.len(), 1);
}

use iobus::bus::Bus;
use iobus::discovery::discover_and_register;
use iobus::dtb::check_blob;
use iobus::error::Error;

fn push_u32(out: &mut Vec<u8>, v: u32) {
    out.extend_from_slice(&v.to_be_bytes());
}

fn push_node_name(out: &mut Vec<u8>, name: &str) {
    out.extend_from_slice(name.as_bytes());
    out.push(0);
    while out.len() % 4 != 0 {
        out.push(0);
    }
}

/// A minimal flattened devicetree: a root with one-cell addresses and
/// sizes, and a single `memory@10000` node with `reg = <0x10000 0x10000>`.
fn build_dtb() -> Vec<u8> {
    let begin_node: u32 = 1;
    let end_node: u32 = 2;
    let prop: u32 = 3;
    let end: u32 = 9;

    let mut structs = Vec::new();
    push_u32(&mut structs, begin_node);
    push_node_name(&mut structs, "");
    push_u32(&mut structs, prop); // #address-cells = <1>
    push_u32(&mut structs, 4);
    push_u32(&mut structs, 0);
    push_u32(&mut structs, 1);
    push_u32(&mut structs, prop); // #size-cells = <1>
    push_u32(&mut structs, 4);
    push_u32(&mut structs, 15);
    push_u32(&mut structs, 1);
    push_u32(&mut structs, begin_node);
    push_node_name(&mut structs, "memory@10000");
    push_u32(&mut structs, prop); // reg = <0x10000 0x10000>
    push_u32(&mut structs, 8);
    push_u32(&mut structs, 27);
    push_u32(&mut structs, 0x10000);
    push_u32(&mut structs, 0x10000);
    push_u32(&mut structs, end_node);
    push_u32(&mut structs, end_node);
    push_u32(&mut structs, end);

    let strings = b"#address-cells\0#size-cells\0reg\0";

    let header_len = 40usize;
    let rsvmap_len = 16usize;
    let off_struct = header_len + rsvmap_len;
    let off_strings = off_struct + structs.len();
    let total = off_strings + strings.len();

    let mut dtb = Vec::new();
    push_u32(&mut dtb, 0xD00DFEED); // magic
    push_u32(&mut dtb, total as u32);
    push_u32(&mut dtb, off_struct as u32);
    push_u32(&mut dtb, off_strings as u32);
    push_u32(&mut dtb, header_len as u32); // mem reservation block
    push_u32(&mut dtb, 17); // version
    push_u32(&mut dtb, 16); // last compatible version
    push_u32(&mut dtb, 0); // boot cpu
    push_u32(&mut dtb, strings.len() as u32);
    push_u32(&mut dtb, structs.len() as u32);
    dtb.extend_from_slice(&[0u8; 16]); // empty reservation list
    dtb.extend_from_slice(&structs);
    dtb.extend_from_slice(strings);
    dtb
}

#[test]
fn discovers_and_registers_memory_regions() {
    let dtb = build_dtb();
    let mut bus = Bus::new();
    assert_eq!(discover_and_register(&mut bus, &dtb), Some(1));
    assert_eq!(bus.entries.len(), 1);

    // The region found in the blob backs reads and writes.
    assert_eq!(bus.write(0x10001, &vec![1, 2, 3]), Ok(()));
    let mut buf = vec![0u8; 3];
    assert_eq!(bus.read(0x10001, &mut buf), Ok(()));
    assert_eq!(buf, vec![1, 2, 3]);
    assert_eq!(bus.read(0x30000, &mut buf), Err(Error::InvalidAccess));
}

/// A header whose fields are filled in by the caller, with no body.
fn bare_header(total: u32, off_struct: u32, size_struct: u32, off_strings: u32, size_strings: u32) -> Vec<u8> {
    let mut dtb = Vec::new();
    push_u32(&mut dtb, 0xD00DFEED);
    push_u32(&mut dtb, total);
    push_u32(&mut dtb, off_struct);
    push_u32(&mut dtb, off_strings);
    push_u32(&mut dtb, 40);
    push_u32(&mut dtb, 17);
    push_u32(&mut dtb, 16);
    push_u32(&mut dtb, 0);
    push_u32(&mut dtb, size_strings);
    push_u32(&mut dtb, size_struct);
    dtb
}

#[test]
fn structurally_unsafe_blobs_are_refused() {
    // A well-formed header with empty blocks: no root node to find.
    let header_only = bare_header(40, 0, 0, 0, 0);
    let mut bus = Bus::new();
    assert!(!check_blob(&header_only));
    assert_eq!(discover_and_register(&mut bus, &header_only), None);
    assert_eq!(bus.entries.len(), 0);

    // Block ranges pointing past the buffer.
    let oob = bare_header(40, 0, 4096, 0, 0);
    assert!(!check_blob(&oob));
    assert_eq!(discover_and_register(&mut bus, &oob), None);

    // A root node whose single property claims more bytes than the
    // structure block holds.
    let mut structs = Vec::new();
    push_u32(&mut structs, 1); // begin root
    push_node_name(&mut structs, "");
    push_u32(&mut structs, 3); // property
    push_u32(&mut structs, 0xFFFF); // length past the block
    push_u32(&mut structs, 0);
    push_u32(&mut structs, 2); // end root
    let mut lying_prop = bare_header(40 + structs.len() as u32 + 4, 40, structs.len() as u32, 40 + structs.len() as u32, 4);
    lying_prop.extend_from_slice(&structs);
    lying_prop.extend_from_slice(b"reg\0");
    assert!(!check_blob(&lying_prop));
    assert_eq!(discover_and_register(&mut bus, &lying_prop), None);

    // A structure block that never closes the root node.
    let mut structs = Vec::new();
    push_u32(&mut structs, 1);
    push_node_name(&mut structs, "");
    let mut unclosed = bare_header(40 + structs.len() as u32, 40, structs.len() as u32, 40 + structs.len() as u32, 0);
    unclosed.extend_from_slice(&structs);
    assert!(!check_blob(&unclosed));
    assert_eq!(discover_and_register(&mut bus, &unclosed), None);

    // A root whose `#address-cells` value is empty: its four-byte decode
    // would be reached through the memory child's `reg` lookup.
    let mut structs = Vec::new();
    push_u32(&mut structs, 1); // begin root
    push_node_name(&mut structs, "");
    push_u32(&mut structs, 3); // #address-cells, zero-length value
    push_u32(&mut structs, 0);
    push_u32(&mut structs, 0);
    push_u32(&mut structs, 1); // begin memory child
    push_node_name(&mut structs, "memory");
    push_u32(&mut structs, 2); // end memory child
    push_u32(&mut structs, 2); // end root
    let strings = b"#address-cells\0";
    let total = 40 + structs.len() as u32 + strings.len() as u32;
    let mut short_cells = bare_header(total, 40, structs.len() as u32, 40 + structs.len() as u32, strings.len() as u32);
    short_cells.extend_from_slice(&structs);
    short_cells.extend_from_slice(strings);
    assert!(!check_blob(&short_cells));
    assert_eq!(discover_and_register(&mut bus, &short_cells), None);

    assert_eq!(bus.entries.len(), 0);

    // The well-formed blob is accepted.
    assert!(check_blob(&build_dtb()));
}

#[test]
fn bad_blob_registers_nothing() {
    let mut bus = Bus::new();
    assert_eq!(discover_and_register(&mut bus, &vec![1, 2, 3]), None);
    assert_eq!(bus.entries.len(), 0);

    // Right magic, truncated body: still refused.
    let mut short = Vec::new();
    push_u32(&mut short, 0xD00DFEED);
    push_u32(&mut short, 400);
    assert_eq!(discover_and_register(&mut bus, &short), None);
    assert_eq!(bus.entries.len(), 0);
}

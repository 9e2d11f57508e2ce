//! The layout of WKB values.

use xeibe::wkb::{CoordRun, WkbIssue, geometry_type_name, wkb_layout};

fn coords(n: usize) -> Vec<u8> {
    vec![0u8; n * 8]
}

#[test]
fn a_little_endian_point_has_one_run_after_its_header() {
    let mut buf = vec![1u8, 1, 0, 0, 0];
    buf.extend(coords(2));
    let layout = wkb_layout(&buf).ok().unwrap();
    assert_eq!(layout.base, 1);
    assert!(!layout.z);
    assert_eq!(layout.runs, vec![CoordRun { offset: 5, count: 1, dims: 2, little: true }]);
    assert_eq!(layout.end, 21);
    assert_eq!(geometry_type_name(layout.base, layout.z), "Point");
}

#[test]
fn a_big_endian_linestring_reads_its_count() {
    let mut buf = vec![0u8, 0, 0, 0, 2, 0, 0, 0, 2];
    buf.extend(coords(4));
    let layout = wkb_layout(&buf).ok().unwrap();
    assert_eq!(layout.base, 2);
    assert_eq!(layout.runs, vec![CoordRun { offset: 9, count: 2, dims: 2, little: false }]);
    assert_eq!(layout.end, 41);
}

#[test]
fn iso_thousands_and_ewkb_flags_give_z_and_m() {
    // ISO 1001: Point Z.
    let mut buf = vec![1u8, 0xE9, 0x03, 0, 0];
    buf.extend(coords(3));
    let layout = wkb_layout(&buf).ok().unwrap();
    assert!(layout.z);
    assert_eq!(layout.end, 29);
    assert_eq!(geometry_type_name(layout.base, layout.z), "Point Z");
    // ISO 3002: LineString ZM with one point.
    let mut buf = vec![1u8, 0xBA, 0x0B, 0, 0, 1, 0, 0, 0];
    buf.extend(coords(4));
    let layout = wkb_layout(&buf).ok().unwrap();
    assert_eq!(layout.runs, vec![CoordRun { offset: 9, count: 1, dims: 4, little: true }]);
    // EWKB Z flag with an SRID: the SRID is passed over.
    let mut buf = vec![1u8, 1, 0, 0, 0xA0, 0xE6, 0x10, 0, 0];
    buf.extend(coords(3));
    let layout = wkb_layout(&buf).ok().unwrap();
    assert!(layout.z);
    assert_eq!(layout.runs, vec![CoordRun { offset: 9, count: 1, dims: 3, little: true }]);
    // EWKB M flag alone: three coordinates, no Z.
    let mut buf = vec![0u8, 0x40, 0, 0, 1];
    buf.extend(coords(3));
    let layout = wkb_layout(&buf).ok().unwrap();
    assert!(!layout.z);
    assert_eq!(layout.runs[0].dims, 3);
}

#[test]
fn polygon_rings_and_multipoint_members_each_give_a_run() {
    let mut buf = vec![1u8, 3, 0, 0, 0, 2, 0, 0, 0, 4, 0, 0, 0];
    buf.extend(coords(8));
    buf.extend([0u8, 0, 0, 0]);
    let layout = wkb_layout(&buf).ok().unwrap();
    assert_eq!(
        layout.runs,
        vec![
            CoordRun { offset: 13, count: 4, dims: 2, little: true },
            CoordRun { offset: 81, count: 0, dims: 2, little: true },
        ]
    );
    assert_eq!(layout.end, 81);
    let mut buf = vec![1u8, 4, 0, 0, 0, 2, 0, 0, 0];
    for _ in 0..2 {
        buf.extend([1u8, 1, 0, 0, 0]);
        buf.extend(coords(2));
    }
    let layout = wkb_layout(&buf).ok().unwrap();
    assert_eq!(layout.base, 4);
    assert_eq!(
        layout.runs,
        vec![
            CoordRun { offset: 14, count: 1, dims: 2, little: true },
            CoordRun { offset: 35, count: 1, dims: 2, little: true },
        ]
    );
    assert_eq!(layout.end, 51);
    assert_eq!(geometry_type_name(7, true), "GeometryCollection Z");
}

#[test]
fn curves_and_other_types_are_reported_by_code() {
    assert_eq!(wkb_layout(&[1, 8, 0, 0, 0]).err(), Some(WkbIssue::Curve(8)));
    assert_eq!(wkb_layout(&[1, 14, 0, 0, 0]).err(), Some(WkbIssue::Curve(14)));
    assert_eq!(wkb_layout(&[1, 15, 0, 0, 0]).err(), Some(WkbIssue::Unsupported(15)));
    assert_eq!(wkb_layout(&[1, 99, 0, 0, 0]).err(), Some(WkbIssue::Unsupported(99)));
    // A curve inside a collection.
    let buf = [1u8, 7, 0, 0, 0, 1, 0, 0, 0, 1, 9, 0, 0, 0];
    assert_eq!(wkb_layout(&buf).err(), Some(WkbIssue::Curve(9)));
}

#[test]
fn short_bytes_and_bad_byte_orders_are_malformed() {
    assert_eq!(wkb_layout(&[]).err(), Some(WkbIssue::Malformed));
    assert_eq!(wkb_layout(&[2, 1, 0, 0, 0]).err(), Some(WkbIssue::Malformed));
    assert_eq!(wkb_layout(&[1, 1, 0, 0, 0, 0, 0]).err(), Some(WkbIssue::Malformed));
    assert_eq!(wkb_layout(&[1, 2, 0, 0, 0, 0xFF, 0xFF, 0xFF, 0xFF]).err(), Some(WkbIssue::Malformed));
    assert_eq!(wkb_layout(&[1, 1, 0, 0, 0x20, 0, 0]).err(), Some(WkbIssue::Malformed));
}

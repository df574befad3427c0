use flightdata::binary::{decode_binary, encode_binary};
use flightdata::csv::{write_csv, write_csv_timestamped};
use flightdata::sample::{average, RawFlightData};

fn sample(ac_x: i16, ac_y: i16, ac_z: i16, gy_x: i16, gy_y: i16, gy_z: i16, dt: u64) -> RawFlightData {
    RawFlightData { ac_x, ac_y, ac_z, gy_x, gy_y, gy_z, dt }
}

#[test]
fn binary_frame_layout_is_little_endian() {
    let d = sample(-1, 2, 3, 4, 5, 6, 0x0102030405060708);
    let b = encode_binary(&d);
    assert_eq!(b.len(), 21);
    assert_eq!(b[0], 0xff);
    // -1 as i16 is 0xFFFF: low byte first.
    assert_eq!(b[1], 0xff);
    assert_eq!(b[2], 0xff);
    assert_eq!(&b[3..5], &[2, 0]);
    assert_eq!(&b[5..7], &[3, 0]);
    assert_eq!(&b[7..9], &[4, 0]);
    assert_eq!(&b[9..11], &[5, 0]);
    assert_eq!(&b[11..13], &[6, 0]);
    assert_eq!(&b[13..21], &[8, 7, 6, 5, 4, 3, 2, 1]);
}

#[test]
fn binary_round_trip_reproduces_every_field() {
    let cases = [
        sample(-1, -32768, 32767, 0, 1, -1, u64::MAX),
        sample(0, 0, 0, 0, 0, 0, 0),
        sample(100, 200, 300, 10, 20, 30, 12345),
    ];
    for d in cases {
        let b = encode_binary(&d);
        assert_eq!(decode_binary(&b), Some(d));
    }
}

#[test]
fn binary_decode_rejects_bad_frames() {
    let d = sample(1, 2, 3, 4, 5, 6, 7);
    let mut b = encode_binary(&d);
    b[0] = 0xfe;
    assert_eq!(decode_binary(&b), None);
    let b = encode_binary(&d);
    assert_eq!(decode_binary(&b[..20]), None);
}

#[test]
fn average_truncates_axes_and_sums_dt() {
    let w = vec![
        sample(100, -3, 7, 0, 1, -32768, 10),
        sample(300, 2, 8, 0, 2, -32768, 20),
    ];
    let a = average(&w);
    assert_eq!(a.ac_x, 200);
    // (-3 + 2) / 2 truncates toward zero.
    assert_eq!(a.ac_y, 0);
    assert_eq!(a.ac_z, 7);
    assert_eq!(a.gy_x, 0);
    assert_eq!(a.gy_y, 1);
    assert_eq!(a.gy_z, -32768);
    // dt is summed, not averaged.
    assert_eq!(a.dt, 30);
}

#[test]
fn average_of_one_is_the_sample_with_its_dt() {
    let w = vec![sample(-7, 8, -9, 10, -11, 12, 99)];
    let a = average(&w);
    assert_eq!(a, w[0]);
}

#[test]
fn csv_line_has_fixed_order_and_exact_decimals() {
    let d = sample(100, 0, -2048, 0, 32767, -32767, 12345);
    let line = write_csv(&d);
    assert_eq!(
        String::from_utf8(line).unwrap(),
        "12345,0.048828125,0,-1,0,500,-500\n"
    );
}

#[test]
fn timestamped_csv_replaces_dt_with_the_timestamp() {
    let d = sample(2048, 0, 0, 0, 0, 0, 77);
    let line = write_csv_timestamped(1700000000000000, &d);
    assert_eq!(
        String::from_utf8(line).unwrap(),
        "1700000000000000,1,0,0,0,0,0\n"
    );
}

fn csv_fields(d: &RawFlightData) -> Vec<f32> {
    let line = String::from_utf8(write_csv(d)).unwrap();
    line.trim_end()
        .split(',')
        .skip(1)
        .map(|f| f.parse::<f32>().unwrap())
        .collect()
}

#[test]
fn g_force_text_matches_raw_over_2048() {
    for raw in [-32768i16, -2048, -1, 0, 1, 100, 2048, 32767] {
        let d = sample(raw, 0, 0, 0, 0, 0, 0);
        let got = csv_fields(&d)[0];
        let expect = raw as f32 / 2048.0;
        assert!(
            (got - expect).abs() <= 1e-6,
            "raw {}: got {}, expected {}",
            raw,
            got,
            expect
        );
    }
}

#[test]
fn g_force_is_monotonic_in_raw() {
    let mut prev = f32::NEG_INFINITY;
    let mut raw = -32768i32;
    while raw <= 32767 {
        let d = sample(raw as i16, 0, 0, 0, 0, 0, 0);
        let g = csv_fields(&d)[0];
        assert!(g >= prev, "not monotonic at raw {}", raw);
        prev = g;
        raw += 509;
    }
}

#[test]
fn degrees_per_second_maps_the_full_scale_range() {
    let full = sample(0, 0, 0, 32767, -32768, 0, 0);
    let f = csv_fields(&full);
    assert_eq!(f[3], 500.0);
    // The low end lies slightly beyond -500 because the signed range is
    // asymmetric.
    let expect = (-32768.0f32 / 32767.0) * 500.0;
    assert!((f[4] - expect).abs() <= 1e-3, "got {}, expected {}", f[4], expect);
    assert!(f[4] < -500.0);
    assert_eq!(f[5], 0.0);
    for raw in [-12345i16, -1, 1, 777, 32000] {
        let d = sample(0, 0, 0, raw, 0, 0, 0);
        let got = csv_fields(&d)[3];
        let expect = (raw as f32 / 32767.0) * 500.0;
        assert!(
            (got - expect).abs() <= 1e-3,
            "raw {}: got {}, expected {}",
            raw,
            got,
            expect
        );
    }
}

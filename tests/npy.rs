use ndarray_npy::array::NpyArray;
use ndarray_npy::bytes::{resolve, Endian, Order};
use ndarray_npy::dtype::DType;
use ndarray_npy::header::{get_header, padding_for};
use ndarray_npy::session::WriteSession;
use ndarray_npy::writer::{write_ordered, NpyError};

fn f64_array(shape: Vec<usize>, values: &[f64]) -> NpyArray {
    NpyArray::new(DType::Float64, shape, values.iter().map(|v| v.to_bits()).collect()).unwrap()
}

fn f32_array(shape: Vec<usize>, values: &[f32]) -> NpyArray {
    NpyArray::new(DType::Float32, shape, values.iter().map(|v| v.to_bits() as u64).collect())
        .unwrap()
}

fn encode(a: &NpyArray, o: Order) -> Vec<u8> {
    let mut out = Vec::new();
    write_ordered(&mut out, a, o).unwrap();
    out
}

fn header_len_field(bytes: &[u8]) -> usize {
    bytes[8] as usize | ((bytes[9] as usize) << 8)
}

#[test]
fn zeros_3x4_f8_little() {
    let a = f64_array(vec![3, 4], &[0.0; 12]);
    let out = encode(&a, Order::Little);
    assert_eq!(&out[..8], b"\x93NUMPY\x01\x00");
    let text = b"{'descr': '<f8','fortran_order': False,'shape': (3,4)}\n";
    let hl = header_len_field(&out);
    assert_eq!(hl, 70);
    assert_eq!((10 + hl) % 16, 0);
    assert_eq!(&out[10..10 + text.len()], &text[..]);
    assert!(out[10 + text.len()..10 + hl].iter().all(|&b| b == b' '));
    assert_eq!(out.len(), 10 + hl + 96);
    assert!(out[10 + hl..].iter().all(|&b| b == 0));
}

#[test]
fn scalar_f4_shape_renders_empty_tuple() {
    let a = f32_array(vec![], &[1.5]);
    let out = encode(&a, Order::Little);
    let hl = header_len_field(&out);
    let header = &out[10..10 + hl];
    let text = b"{'descr': '<f4','fortran_order': False,'shape': ()}\n";
    assert_eq!(&header[..text.len()], &text[..]);
    assert_eq!(out.len() - (10 + hl), 4);
    assert_eq!(&out[10 + hl..], &1.5f32.to_le_bytes()[..]);
}

struct FailingSink {
    taken: Vec<u8>,
    calls: usize,
    fail_at: usize,
}

fn drive(session: &mut WriteSession, sink: &mut FailingSink) -> Result<(), NpyError> {
    loop {
        if let Some(r) = session.outcome() {
            return r;
        }
        let chunk = session.pending().unwrap().clone();
        sink.calls += 1;
        if sink.calls == sink.fail_at {
            session.on_failed();
        } else {
            sink.taken.extend_from_slice(&chunk);
            session.on_written();
        }
    }
}

#[test]
fn sink_failure_in_element_phase_stops_writing() {
    let a = f64_array(vec![3], &[1.0, 2.0, 3.0]);
    let mut s = WriteSession::start(&a, Order::Little).unwrap();
    let text_len = b"{'descr': '<f8','fortran_order': False,'shape': (3,)}\n".len();
    let pad = padding_for(text_len);
    // magic, version, length, header, the spaces, then the first element fails
    let mut sink = FailingSink { taken: Vec::new(), calls: 0, fail_at: 4 + pad + 1 };
    assert_eq!(drive(&mut s, &mut sink), Err(NpyError::IoFailure));
    assert_eq!(sink.calls, 4 + pad + 1);
    assert!(s.pending().is_none());
    assert_eq!(s.outcome(), Some(Err(NpyError::IoFailure)));
    let full = encode(&a, Order::Little);
    assert_eq!(sink.taken.len(), 10 + text_len + pad);
    assert_eq!(&sink.taken[..], &full[..sink.taken.len()]);
}

#[test]
fn session_without_failure_writes_whole_stream() {
    let a = f32_array(vec![2, 2], &[1.0, -2.0, 3.5, 0.25]);
    let mut s = WriteSession::start(&a, Order::Big).unwrap();
    let mut sink = FailingSink { taken: Vec::new(), calls: 0, fail_at: usize::MAX };
    assert_eq!(drive(&mut s, &mut sink), Ok(()));
    assert_eq!(sink.taken, encode(&a, Order::Big));
}

#[test]
fn header_too_large_writes_nothing() {
    let shape = vec![1usize; 33000];
    let a = f64_array(shape, &[7.0]);
    let mut out = vec![9u8];
    assert_eq!(ndarray_npy::writer::write(&mut out, &a, Endian::Little), Err(NpyError::HeaderTooLarge));
    assert_eq!(out, vec![9u8]);
    assert!(WriteSession::start(&a, Order::Little).is_err());
}

#[test]
fn large_header_that_still_fits() {
    let shape = vec![1usize; 30000];
    let a = f64_array(shape, &[7.0]);
    let out = encode(&a, Order::Little);
    let hl = header_len_field(&out);
    assert_eq!((10 + hl) % 16, 0);
    assert_eq!(out.len(), 10 + hl + 8);
}

#[test]
fn header_on_boundary_gets_no_padding() {
    // 52 fixed bytes plus "5," make 54, and 10 + 54 = 64.
    let a = f64_array(vec![5], &[0.0; 5]);
    let out = encode(&a, Order::Little);
    assert_eq!(header_len_field(&out), 54);
    assert_eq!(out[63], b'\n');
    assert_eq!(padding_for(54), 0);
}

#[test]
fn alignment_for_many_shapes() {
    for n in 0..40usize {
        let shape: Vec<usize> = (0..n % 5).map(|k| if k == 0 { n } else { 1 }).collect();
        let count: usize = shape.iter().product();
        let a = f32_array(shape, &vec![0.5f32; count]);
        let out = encode(&a, Order::Little);
        let hl = header_len_field(&out);
        assert_eq!((10 + hl) % 16, 0);
        assert_eq!(out.len(), 10 + hl + 4 * count);
    }
}

#[test]
fn padding_values() {
    assert_eq!(padding_for(6), 0);
    assert_eq!(padding_for(7), 15);
    assert_eq!(padding_for(60), 10);
}

#[test]
fn big_endian_elements_and_symbol() {
    let a = f32_array(vec![2], &[1.0, -2.0]);
    let out = encode(&a, Order::Big);
    assert_eq!(out[21], b'>');
    let hl = header_len_field(&out);
    assert_eq!(&out[8..10], &(hl as u16).to_le_bytes()[..]);
    assert_eq!(&out[10 + hl..], &[0x3f, 0x80, 0, 0, 0xc0, 0, 0, 0][..]);
    let header = String::from_utf8(out[10..10 + hl].to_vec()).unwrap();
    assert!(header.starts_with("{'descr': '>f4','fortran_order': False,'shape': (2,)}\n"));
}

#[test]
fn little_endian_f8_element_bytes() {
    let a = f64_array(vec![1], &[1.0]);
    let out = encode(&a, Order::Little);
    assert_eq!(out[21], b'<');
    let hl = header_len_field(&out);
    assert_eq!(&out[10 + hl..], &1.0f64.to_le_bytes()[..]);
}

#[test]
fn row_major_element_order() {
    let values: Vec<f64> = (0..6).map(|v| v as f64).collect();
    let a = f64_array(vec![2, 3], &values);
    let out = encode(&a, Order::Little);
    let start = 10 + header_len_field(&out);
    for (i, v) in values.iter().enumerate() {
        assert_eq!(&out[start + 8 * i..start + 8 * (i + 1)], &v.to_le_bytes()[..]);
    }
    let text = String::from_utf8(out[10..start].to_vec()).unwrap();
    assert!(text.contains("'fortran_order': False"));
    assert!(text.contains("'shape': (2,3)"));
}

#[test]
fn one_axis_shape_is_a_one_tuple() {
    let h = get_header(Order::Little, DType::Float32, &vec![4]);
    assert_eq!(h, b"{'descr': '<f4','fortran_order': False,'shape': (4,)}\n".to_vec());
    let h = get_header(Order::Big, DType::Float64, &vec![0]);
    assert_eq!(h, b"{'descr': '>f8','fortran_order': False,'shape': (0,)}\n".to_vec());
}

#[test]
fn zero_length_dimension() {
    let a = f32_array(vec![4, 0, 2], &[]);
    let out = encode(&a, Order::Little);
    let hl = header_len_field(&out);
    assert_eq!(out.len(), 10 + hl);
    let text = String::from_utf8(out[10..10 + hl].to_vec()).unwrap();
    assert!(text.starts_with("{'descr': '<f4','fortran_order': False,'shape': (4,0,2)}\n"));
}

#[test]
fn deterministic_output() {
    let a = f64_array(vec![2, 2], &[1.0, 2.0, 3.0, 4.0]);
    let b = f64_array(vec![2, 2], &[1.0, 2.0, 3.0, 4.0]);
    assert_eq!(encode(&a, Order::Big), encode(&b, Order::Big));
    let mut x = Vec::new();
    let mut y = Vec::new();
    ndarray_npy::writer::write(&mut x, &a, Endian::Native).unwrap();
    ndarray_npy::writer::write(&mut y, &a, Endian::Native).unwrap();
    assert_eq!(x, y);
}

#[test]
fn native_is_the_machine_order() {
    let a = f32_array(vec![1], &[3.0]);
    let mut out = Vec::new();
    ndarray_npy::writer::write(&mut out, &a, Endian::Native).unwrap();
    let expected = if 1u16.to_ne_bytes()[0] == 1 { Order::Little } else { Order::Big };
    assert_eq!(resolve(Endian::Native), expected);
    assert_eq!(out, encode(&a, expected));
}

#[test]
fn selected_orders_resolve() {
    assert_eq!(resolve(Endian::Little), Order::Little);
    assert_eq!(resolve(Endian::Big), Order::Big);
    assert_eq!(Order::Little.endian_symbol(), b'<');
    assert_eq!(Order::Big.endian_symbol(), b'>');
}

#[test]
fn dtype_tags_and_widths() {
    assert_eq!(DType::Float32.dtype(), *b"f4");
    assert_eq!(DType::Float64.dtype(), *b"f8");
    assert_eq!(DType::Float32.width(), 4);
    assert_eq!(DType::Float64.width(), 8);
}

#[test]
fn header_text_with_large_dimensions() {
    let h = get_header(Order::Little, DType::Float64, &vec![0, 12345, 18446744073709551615usize]);
    assert_eq!(
        h,
        b"{'descr': '<f8','fortran_order': False,'shape': (0,12345,18446744073709551615)}\n".to_vec()
    );
}

#[test]
fn new_rejects_bad_arrays() {
    assert!(NpyArray::new(DType::Float64, vec![2, 3], vec![0; 5]).is_none());
    assert!(NpyArray::new(DType::Float64, vec![2, 3], vec![0; 7]).is_none());
    assert!(NpyArray::new(DType::Float32, vec![1], vec![1u64 << 32]).is_none());
    assert!(NpyArray::new(DType::Float64, vec![1], vec![1u64 << 32]).is_some());
    assert!(NpyArray::new(DType::Float64, vec![usize::MAX, 2, 0], vec![]).is_some());
    assert!(NpyArray::new(DType::Float64, vec![usize::MAX, 2], vec![]).is_none());
    let a = NpyArray::new(DType::Float32, vec![2], vec![1, 2]).unwrap();
    assert_eq!(a.shape(), &vec![2]);
    assert_eq!(a.data(), &vec![1, 2]);
    assert_eq!(a.dtype(), DType::Float32);
}

#[test]
fn big_endian_f8_element_bytes() {
    let a = f64_array(vec![2], &[1.0, -0.5]);
    let out = encode(&a, Order::Big);
    assert_eq!(out[21], b'>');
    let hl = header_len_field(&out);
    let mut expected = 1.0f64.to_be_bytes().to_vec();
    expected.extend_from_slice(&(-0.5f64).to_be_bytes());
    assert_eq!(&out[10 + hl..], &expected[..]);
}

fn read_back_f64(bytes: &[u8]) -> (Vec<usize>, Vec<f64>) {
    assert_eq!(&bytes[..8], b"\x93NUMPY\x01\x00");
    let hl = header_len_field(bytes);
    let header = String::from_utf8(bytes[10..10 + hl].to_vec()).unwrap();
    assert!(header.starts_with("{'descr': '<f8','fortran_order': False,'shape': ("));
    let open = header.find("'shape': (").unwrap() + "'shape': (".len();
    let close = header[open..].find(')').unwrap() + open;
    let dims = &header[open..close];
    let shape: Vec<usize> =
        if dims.is_empty() { vec![] } else { dims.split(',').filter(|d| !d.is_empty()).map(|d| d.parse().unwrap()).collect() };
    let values = bytes[10 + hl..]
        .chunks(8)
        .map(|c| f64::from_le_bytes([c[0], c[1], c[2], c[3], c[4], c[5], c[6], c[7]]))
        .collect();
    (shape, values)
}

#[test]
fn round_trip_recovers_shape_and_values() {
    let cases: Vec<(Vec<usize>, Vec<f64>)> = vec![
        (vec![], vec![2.5]),
        (vec![0], vec![]),
        (vec![2, 0, 3], vec![]),
        (vec![3], vec![1.0, -7.25, 1e300]),
        (vec![2, 3], vec![0.0, 1.0, 2.0, 3.0, 4.0, 5.0]),
        (vec![1, 2, 1, 2], vec![-0.0, f64::MAX, f64::MIN_POSITIVE, 42.0]),
    ];
    for (shape, values) in cases {
        let a = f64_array(shape.clone(), &values);
        let (s, v) = read_back_f64(&encode(&a, Order::Little));
        assert_eq!(s, shape);
        assert_eq!(v.len(), values.len());
        for (x, y) in v.iter().zip(values.iter()) {
            assert_eq!(x.to_bits(), y.to_bits());
        }
    }
}

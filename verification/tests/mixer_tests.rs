use splinch::xor_buffers;
use rand::RngCore;

fn random_vec(len: usize) -> Vec<u8> {
    let mut v = vec![0u8; len];
    rand::rng().fill_bytes(&mut v);
    v
}

#[test]
fn xor_buffers_basic() {
    let a = vec![0x00u8, 0xff, 0x0f, 0xaa];
    let b = vec![0xffu8, 0xff, 0xf0, 0x55];
    let mut out = vec![0u8; 4];
    xor_buffers(&a, &b, &mut out);
    assert_eq!(out, vec![0xffu8, 0x00, 0xff, 0xff]);
}

#[test]
fn xor_buffers_zero_length() {
    let a: Vec<u8> = Vec::new();
    let b: Vec<u8> = Vec::new();
    let mut out: Vec<u8> = Vec::new();
    xor_buffers(&a, &b, &mut out);
    assert_eq!(out, Vec::<u8>::new());
}

#[test]
fn mixing_is_self_inverse() {
    let a = random_vec(1000);
    let b = random_vec(1000);
    let mut mixed = vec![0u8; 1000];
    xor_buffers(&a, &b, &mut mixed);
    assert_eq!(mixed.len(), 1000);
    let mut back_a = vec![0u8; 1000];
    xor_buffers(&mixed, &b, &mut back_a);
    assert_eq!(back_a, a);
    let mut back_b = vec![0u8; 1000];
    xor_buffers(&mixed, &a, &mut back_b);
    assert_eq!(back_b, b);
}

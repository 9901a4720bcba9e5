use rh24::{abs_sub, Op, OpKind};

const KINDS: [OpKind; 26] = [
    OpKind::Push,
    OpKind::Pop,
    OpKind::Dup,
    OpKind::Add,
    OpKind::Dif,
    OpKind::Mul,
    OpKind::Div,
    OpKind::Rem,
    OpKind::And,
    OpKind::Or,
    OpKind::Xor,
    OpKind::Shr,
    OpKind::Shl,
    OpKind::Beq,
    OpKind::Bne,
    OpKind::Bgt,
    OpKind::Blt,
    OpKind::Fun,
    OpKind::Call,
    OpKind::Ret,
    OpKind::Loop,
    OpKind::Iter,
    OpKind::Exe,
    OpKind::Sto,
    OpKind::Lod,
    OpKind::Len,
];

#[test]
fn encode_places_tag_high_and_operand_low() {
    assert_eq!(Op::new(OpKind::Push, 0), 0);
    assert_eq!(Op::new(OpKind::Pop, 7), (1u128 << 64) | 7);
    assert_eq!(Op::new(OpKind::Len, u64::MAX), (25u128 << 64) | u64::MAX as u128);
}

#[test]
fn round_trip_every_kind() {
    for (i, k) in KINDS.iter().enumerate() {
        assert_eq!(k.tag(), i as u64);
        for v in [0u64, 1, 2, 1000, 0xFFFF_FFFF] {
            let op = Op::decode(&Op::new(*k, v)).unwrap();
            assert_eq!(op.kind, *k);
            assert_eq!(op.op, i as u64);
            assert_eq!(op.var, v);
        }
    }
}

#[test]
fn decode_keeps_low_32_bits_of_operand() {
    let op = Op::decode(&Op::new(OpKind::Push, (1u64 << 32) + 5)).unwrap();
    assert_eq!(op.kind, OpKind::Push);
    assert_eq!(op.var, 5);
    let op = Op::decode(&Op::new(OpKind::Add, u64::MAX)).unwrap();
    assert_eq!(op.var, 0xFFFF_FFFF);
}

#[test]
fn decode_rejects_unknown_tags() {
    assert!(Op::decode(&Op::new(OpKind::LAST, 0)).is_err());
    assert!(Op::decode(&(26u128 << 64)).is_err());
    assert!(Op::decode(&u128::MAX).is_err());
    assert_eq!(OpKind::from_tag(26), None);
    assert_eq!(OpKind::from_tag(22), Some(OpKind::Exe));
}

#[test]
fn abs_sub_is_distance() {
    assert_eq!(abs_sub(16, 4), 12);
    assert_eq!(abs_sub(4, 16), 12);
    assert_eq!(abs_sub(7, 7), 0);
    assert_eq!(abs_sub(0, u128::MAX), u128::MAX);
}

use isla::bitvector::{B64, ParsedBits};
use isla::smt::literal::{bits64, smt_bits_from_str};
use isla::smt::smtlib::{EnumId, EnumMember, Exp, FPBinary, FPConstant, FPRoundingBinary, FPRoundingMode, FPRoundingUnary, FPUnary, Sym, Ty};
use std::collections::HashMap;

fn var(v: Sym) -> Box<Exp<Sym>> {
    Box::new(Exp::Var(v))
}

fn word(bits: u64, len: u32) -> Box<Exp<Sym>> {
    Box::new(Exp::Bits64(B64::new(bits, len)))
}

fn flag(b: bool) -> Box<Exp<Sym>> {
    Box::new(Exp::Bool(b))
}

fn is_word(exp: &Exp<Sym>, bits: u64, len: u32) -> bool {
    match exp {
        Exp::Bits64(b) => b.lower_u64() == bits && b.len() == len,
        _ => false,
    }
}

#[test]
fn bitvectors_keep_the_low_bits() {
    let b = B64::new(0x1ff, 8);
    assert_eq!(b.lower_u64(), 0xff);
    assert_eq!(b.len(), 8);
    assert_eq!(B64::new(u64::MAX, 64).lower_u64(), u64::MAX);
    assert_eq!(B64::new(5, 0).lower_u64(), 0);
}

#[test]
fn bitvector_arithmetic_wraps() {
    let a = B64::new(0xf0, 8);
    let b = B64::new(0x20, 8);
    assert_eq!(a.add(b).lower_u64(), 0x10);
    assert_eq!(b.sub(a).lower_u64(), 0x30);
    assert_eq!(a.bitand(b).lower_u64(), 0x20);
    assert_eq!(a.bitor(B64::new(1, 8)).lower_u64(), 0xf1);
    assert_eq!(a.bitxor(b).lower_u64(), 0xd0);
    assert_eq!(a.not().lower_u64(), 0x0f);
    assert_eq!(a.shl(B64::new(1, 8)).lower_u64(), 0xe0);
    assert_eq!(a.shr(B64::new(4, 8)).lower_u64(), 0x0f);
    assert_eq!(a.shl(B64::new(8, 8)).lower_u64(), 0);
    assert_eq!(a.shr(B64::new(200, 8)).lower_u64(), 0);
}

#[test]
fn bitvector_parts() {
    let b = B64::new(0b1011_0100, 8);
    assert_eq!(b.extract(5, 2).unwrap().lower_u64(), 0b1101);
    assert!(b.extract(8, 0).is_none());
    assert!(b.extract(1, 2).is_none());
    assert_eq!(b.zero_extend(16).lower_u64(), 0b1011_0100);
    assert_eq!(b.sign_extend(16).lower_u64(), 0xffb4);
    assert!(b.bit(2));
    assert!(!b.bit(0));
    assert_eq!(b.set_bit(0).lower_u64(), 0b1011_0101);
    assert!(b.same(B64::new(0xb4, 8)));
    assert!(!b.same(B64::new(0xb4, 9)));
}

#[test]
fn literals_in_two_bases() {
    assert!(matches!(B64::from_str_long("#xff"), Some(ParsedBits::Short(b)) if b == B64::new(255, 8)));
    assert!(matches!(B64::from_str_long("0b101"), Some(ParsedBits::Short(b)) if b == B64::new(5, 3)));
    assert!(matches!(B64::from_str_long("0xAb"), Some(ParsedBits::Short(b)) if b == B64::new(0xab, 8)));
    assert!(B64::from_str_long("#x").is_none());
    assert!(B64::from_str_long("1x0").is_none());
    assert!(B64::from_str_long("#o7").is_none());
    assert!(B64::from_str_long("#xfg").is_none());
    assert!(B64::from_str_long("#b102").is_none());
    match B64::from_str_long("#x10000000000000001") {
        Some(ParsedBits::Long(bits)) => {
            assert_eq!(bits.len(), 68);
            assert!(bits[0] && bits[64]);
            assert_eq!(bits.iter().filter(|b| **b).count(), 2);
        }
        _ => panic!("not a long literal"),
    }
}

#[test]
fn constants_from_words() {
    assert!(is_word(&bits64(0x1234, 8), 0x34, 8));
    match bits64::<Sym>(u64::MAX, 70) {
        Exp::Bits(bits) => {
            assert_eq!(bits.len(), 70);
            assert!(bits[..64].iter().all(|b| *b));
            assert!(bits[64..].iter().all(|b| !*b));
        }
        _ => panic!("not spelled out"),
    }
    assert!(is_word(&smt_bits_from_str("#b0110").unwrap(), 6, 4));
    assert!(smt_bits_from_str::<Sym>("6").is_none());
    assert!(matches!(smt_bits_from_str::<Sym>("0x00000000000000000"), Some(Exp::Bits(b)) if b.len() == 68));
}

#[test]
fn eval_folds_constants() {
    let e = Exp::Bvadd(word(250, 8), word(10, 8)).eval();
    assert!(is_word(&e, 4, 8));
    let e = Exp::Extract(7, 4, word(0xa5, 8)).eval();
    assert!(is_word(&e, 0xa, 4));
    let e = Exp::ZeroExtend(8, word(0xa5, 8)).eval();
    assert!(is_word(&e, 0xa5, 16));
    let e = Exp::SignExtend(8, word(0xa5, 8)).eval();
    assert!(is_word(&e, 0xffa5, 16));
    let e = Exp::Bvshl(word(1, 8), word(3, 8)).eval();
    assert!(is_word(&e, 8, 8));
    let e = Exp::<Sym>::Bvnot(Box::new(Exp::Bits(vec![true; 65]))).eval();
    assert!(matches!(e, Exp::Bits(b) if b.len() == 65 && b.iter().all(|b| !*b)));
    let e = Exp::<Sym>::Extract(64, 1, Box::new(Exp::Bits(vec![true; 65]))).eval();
    assert!(is_word(&e, u64::MAX, 64));
}

#[test]
fn eval_folds_booleans() {
    assert!(matches!(Exp::And(flag(true), var(3)).eval(), Exp::Var(3)));
    assert!(matches!(Exp::And(var(3), flag(false)).eval(), Exp::Bool(false)));
    assert!(matches!(Exp::Or(flag(true), var(3)).eval(), Exp::Bool(true)));
    assert!(matches!(Exp::Or(var(3), flag(false)).eval(), Exp::Var(3)));
    assert!(matches!(Exp::<Sym>::Not(flag(true)).eval(), Exp::Bool(false)));
    assert!(matches!(Exp::Ite(flag(false), var(1), var(2)).eval(), Exp::Var(2)));
    assert!(matches!(Exp::And(var(1), var(2)).eval(), Exp::And(_, _)));
}

#[test]
fn eval_leaves_what_it_does_not_know() {
    let e = Exp::Bvmul(word(2, 8), word(3, 8)).eval();
    assert!(matches!(e, Exp::Bvmul(_, _)));
    let e = Exp::ZeroExtend(60, word(1, 8)).eval();
    assert!(matches!(e, Exp::ZeroExtend(60, _)));
    let e = Exp::Eq(Box::new(Exp::Bvadd(word(1, 8), word(1, 8))), var(1)).eval();
    match e {
        Exp::Eq(lhs, _) => assert!(is_word(&lhs, 2, 8)),
        _ => panic!("not an equality"),
    }
}

#[test]
fn eval_twice_is_eval_once() {
    let make = || Exp::And(Box::new(Exp::Not(flag(false))), Box::new(Exp::Or(var(1), flag(false))));
    let once = make().eval();
    assert!(matches!(once, Exp::Var(1)));
    assert!(matches!(make().eval().eval(), Exp::Var(1)));
}

#[test]
fn commute_extract_moves_inwards() {
    let mut e = Exp::Extract(3, 0, Box::new(Exp::Bvadd(var(1), var(2))));
    e.commute_extract();
    match e {
        Exp::Bvadd(l, r) => {
            assert!(matches!(*l, Exp::Extract(3, 0, _)));
            assert!(matches!(*r, Exp::Extract(3, 0, _)));
        }
        _ => panic!("not moved"),
    }
    let mut e = Exp::Extract(3, 0, Box::new(Exp::Bvmul(var(1), var(2))));
    e.commute_extract();
    assert!(matches!(e, Exp::Extract(3, 0, _)));
}

#[test]
fn modify_applies_everywhere() {
    let mut e = Exp::And(Box::new(Exp::Not(var(1))), var(2));
    e.modify(&|exp: Exp<Sym>| match exp {
        Exp::Var(v) => Exp::Var(v + 10),
        exp => exp,
    });
    match e {
        Exp::And(l, r) => {
            assert!(matches!(*r, Exp::Var(12)));
            assert!(matches!(*l, Exp::Not(inner) if matches!(*inner, Exp::Var(11))));
        }
        _ => panic!("changed shape"),
    }
}

#[test]
fn modify_goes_from_the_bottom_up() {
    let mut e: Exp<Sym> = Exp::Not(Box::new(Exp::Not(flag(true))));
    e.modify(&|exp: Exp<Sym>| exp.eval());
    assert!(matches!(e, Exp::Bool(true)));
}

#[test]
fn modify_top_down_visits_what_is_left() {
    // Each visit unwraps one negation, so that only every other one is met.
    let mut e: Exp<Sym> = Exp::Not(Box::new(Exp::And(Box::new(Exp::Not(var(1))), var(2))));
    e.modify_top_down(&|exp: Exp<Sym>| match exp {
        Exp::Not(inner) => *inner,
        exp => exp,
    });
    match e {
        Exp::And(l, r) => {
            assert!(matches!(*l, Exp::Var(1)));
            assert!(matches!(*r, Exp::Var(2)));
        }
        _ => panic!("changed shape"),
    }
}

#[test]
fn modify_top_down_ends_where_nothing_grows() {
    // The variable 9 would be wrapped without end, but the expression has none.
    let mut e: Exp<Sym> = Exp::Not(var(1));
    e.modify_top_down(&|exp: Exp<Sym>| match exp {
        Exp::Var(9) => Exp::Not(Box::new(Exp::Var(9))),
        Exp::Var(1) => Exp::Var(2),
        exp => exp,
    });
    match e {
        Exp::Not(inner) => assert!(matches!(*inner, Exp::Var(2))),
        _ => panic!("changed shape"),
    }
}

#[test]
fn extractions_move_all_the_way_down() {
    let mut e = Exp::Extract(
        3,
        0,
        Box::new(Exp::Bvand(Box::new(Exp::Bvor(var(1), var(2))), var(3))),
    );
    e.modify_top_down(&|exp: Exp<Sym>| {
        let mut exp = exp;
        exp.commute_extract();
        exp
    });
    match e {
        Exp::Bvand(l, _) => match *l {
            Exp::Bvor(a, _) => assert!(matches!(*a, Exp::Extract(3, 0, _))),
            _ => panic!("not moved into the operand"),
        },
        _ => panic!("not moved"),
    }
}

#[test]
fn map_var_replaces_and_fails() {
    let e: Exp<u8> = Exp::Eq(Box::new(Exp::Var(1)), Box::new(Exp::Var(2)));
    let r: Result<Exp<Sym>, String> = e.map_var(&mut |v: &u8| Ok(Exp::Var(*v as Sym * 2)));
    match r {
        Ok(Exp::Eq(l, r)) => {
            assert!(matches!(*l, Exp::Var(2)));
            assert!(matches!(*r, Exp::Var(4)));
        }
        _ => panic!("not mapped"),
    }
    let r: Result<Exp<Sym>, u8> = e.map_var(&mut |v: &u8| if *v == 2 { Err(*v) } else { Ok(Exp::Bool(true)) });
    assert!(matches!(r, Err(2)));
}

#[test]
fn substitution_uses_each_replacement_once() {
    let mut substs: HashMap<Sym, Option<Exp<Sym>>> = HashMap::new();
    substs.insert(1, Some(Exp::Bool(true)));
    substs.insert(9, Some(Exp::Bool(false)));
    let mut e = Exp::And(var(1), var(2));
    e.subst_once_in_place(&mut substs);
    match e {
        Exp::And(l, r) => {
            assert!(matches!(*l, Exp::Bool(true)));
            assert!(matches!(*r, Exp::Var(2)));
        }
        _ => panic!("changed shape"),
    }
    assert!(matches!(substs.get(&1), Some(None)));
    assert!(matches!(substs.get(&9), Some(Some(_))));
}

#[test]
fn types_are_inferred() {
    let mut tcx: HashMap<Sym, Ty> = HashMap::new();
    tcx.insert(1, Ty::BitVec(8));
    tcx.insert(2, Ty::Array(Box::new(Ty::BitVec(8)), Box::new(Ty::Bool)));
    tcx.insert(3, Ty::Float(11, 53));
    tcx.insert(4, Ty::RoundingMode);
    let mut ftcx: HashMap<Sym, (Vec<Ty>, Ty)> = HashMap::new();
    ftcx.insert(7, (vec![Ty::Bool], Ty::BitVec(3)));
    let ty = |e: Exp<Sym>| e.infer(&tcx, &ftcx);
    assert!(matches!(ty(Exp::Bvadd(var(1), var(1))), Some(Ty::BitVec(8))));
    assert!(matches!(ty(Exp::Concat(var(1), var(1))), Some(Ty::BitVec(16))));
    assert!(matches!(ty(Exp::Extract(5, 2, var(1))), Some(Ty::BitVec(4))));
    assert!(matches!(ty(Exp::ZeroExtend(4, var(1))), Some(Ty::BitVec(12))));
    assert!(matches!(ty(Exp::Bvult(var(1), var(1))), Some(Ty::Bool)));
    assert!(matches!(ty(Exp::Select(var(2), var(1))), Some(Ty::Bool)));
    assert!(matches!(ty(Exp::Store(var(2), var(1), flag(true))), Some(Ty::Array(_, _))));
    assert!(matches!(ty(Exp::App(7, vec![])), Some(Ty::BitVec(3))));
    assert!(matches!(ty(Exp::App(8, vec![])), None));
    assert!(matches!(ty(Exp::Var(99)), None));
    let member = EnumMember { enum_id: EnumId { id: 5 }, member: 0 };
    assert!(matches!(ty(Exp::Enum(member)), Some(Ty::Enum(EnumId { id: 5 }))));
    assert!(matches!(ty(Exp::FPConstant(FPConstant::NaN, 5, 11)), Some(Ty::Float(5, 11))));
    assert!(matches!(ty(Exp::FPRoundingMode(FPRoundingMode::RoundTowardZero)), Some(Ty::RoundingMode)));
    assert!(matches!(ty(Exp::FPUnary(FPUnary::IsNaN, var(3))), Some(Ty::Bool)));
    assert!(matches!(ty(Exp::FPUnary(FPUnary::Neg, var(3))), Some(Ty::Float(11, 53))));
    assert!(matches!(
        ty(Exp::FPRoundingUnary(FPRoundingUnary::ToSigned(32), var(4), var(3))),
        Some(Ty::BitVec(32))
    ));
    assert!(matches!(ty(Exp::FPBinary(FPBinary::Leq, var(3), var(3))), Some(Ty::Bool)));
    assert!(matches!(ty(Exp::FPBinary(FPBinary::Max, var(3), var(3))), Some(Ty::Float(11, 53))));
    assert!(matches!(
        ty(Exp::FPRoundingBinary(FPRoundingBinary::Mul, var(4), var(3), var(3))),
        Some(Ty::Float(11, 53))
    ));
}

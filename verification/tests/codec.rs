use runes_indexer::decimal::parse_decimal;
use runes_indexer::decimal::to_decimal;
use runes_indexer::mint::MintError;
use runes_indexer::rune::Rune;
use runes_indexer::rune_id::RuneIdError;
use runes_indexer::rune::RuneError;
use runes_indexer::rune::RESERVED;
use runes_indexer::height::Height;
use runes_indexer::network::Network;
use runes_indexer::rune_id::RuneId;
use runes_indexer::spaced_rune::SpacedRune;
use runes_indexer::spaced_rune::SpacedRuneError;
use runes_indexer::varint;
use runes_indexer::varint::VarintError;

#[test]
fn varint_zero_is_one_zero_byte() {
    assert_eq!(varint::encode(0), vec![0u8]);
}

#[test]
fn varint_known_encodings() {
    assert_eq!(varint::encode(1), vec![1u8]);
    assert_eq!(varint::encode(127), vec![127u8]);
    assert_eq!(varint::encode(128), vec![0x80u8, 0x01]);
    assert_eq!(varint::encode(255), vec![0xffu8, 0x01]);
    assert_eq!(varint::encode(300), vec![0xacu8, 0x02]);
    assert_eq!(varint::encode(16384), vec![0x80u8, 0x80, 0x01]);
    let max = varint::encode(u128::MAX);
    assert_eq!(max.len(), 19);
    assert_eq!(max[18], 0x03);
    assert!(max[..18].iter().all(|b| *b == 0xff));
}

#[test]
fn varint_round_trip() {
    let mut n: u128 = 0;
    for i in 0..129u32 {
        let encoded = varint::encode(n);
        assert_eq!(varint::decode(&encoded), Ok((n, encoded.len())));
        let mut longer = encoded.clone();
        longer.push(0xff);
        assert_eq!(varint::decode(&longer), Ok((n, encoded.len())));
        n = if i < 128 { (1u128 << i).wrapping_mul(3) ^ n } else { u128::MAX };
    }
    let encoded = varint::encode(u128::MAX);
    assert_eq!(varint::decode(&encoded), Ok((u128::MAX, 19)));
}

#[test]
fn varint_encode_to_vec_appends() {
    let mut v = vec![9u8];
    varint::encode_to_vec(128, &mut v);
    assert_eq!(v, vec![9u8, 0x80, 0x01]);
}

#[test]
fn varint_errors() {
    assert_eq!(varint::decode(&[]), Err(VarintError::Unterminated));
    assert_eq!(varint::decode(&[0x80]), Err(VarintError::Unterminated));
    assert_eq!(varint::decode(&[0x80; 18]), Err(VarintError::Unterminated));
    assert_eq!(varint::decode(&[0x80; 19]), Err(VarintError::Unterminated));
    assert_eq!(varint::decode(&[0x80; 20]), Err(VarintError::Overlong));
    let mut overflow = vec![0x80u8; 18];
    overflow.push(0x04);
    assert_eq!(varint::decode(&overflow), Err(VarintError::Overflow));
    let mut overflow = vec![0xffu8; 18];
    overflow.push(0x84);
    overflow.push(0x00);
    assert_eq!(varint::decode(&overflow), Err(VarintError::Overflow));
    let mut fits = vec![0x80u8; 18];
    fits.push(0x02);
    assert_eq!(varint::decode(&fits), Ok((1u128 << 127, 19)));
}

#[test]
fn rune_names() {
    assert_eq!(Rune(0).to_string(), "A");
    assert_eq!(Rune(1).to_string(), "B");
    assert_eq!(Rune(25).to_string(), "Z");
    assert_eq!(Rune(26).to_string(), "AA");
    assert_eq!(Rune(27).to_string(), "AB");
    assert_eq!(Rune(51).to_string(), "AZ");
    assert_eq!(Rune(52).to_string(), "BA");
    assert_eq!(Rune(701).to_string(), "ZZ");
    assert_eq!(Rune(702).to_string(), "AAA");
    assert_eq!(Rune(u128::MAX).to_string(), "BCGDENLQRQWDSLRUGSNLBTMFIJAV");
    assert_eq!(Rune(u128::MAX - 1).to_string(), "BCGDENLQRQWDSLRUGSNLBTMFIJAU");
    assert_eq!(Rune(RESERVED).to_string(), "AAAAAAAAAAAAAAAAAAAAAAAAAAA");
}

#[test]
fn rune_parse() {
    assert_eq!(Rune::from_str("A"), Ok(Rune(0)));
    assert_eq!(Rune::from_str("Z"), Ok(Rune(25)));
    assert_eq!(Rune::from_str("AA"), Ok(Rune(26)));
    assert_eq!(Rune::from_str("ZZ"), Ok(Rune(701)));
    assert_eq!(Rune::from_str("BCGDENLQRQWDSLRUGSNLBTMFIJAV"), Ok(Rune(u128::MAX)));
    assert_eq!(Rune::from_str("BCGDENLQRQWDSLRUGSNLBTMFIJAW"), Err(RuneError::Range));
    assert_eq!(Rune::from_str("AAAAAAAAAAAAAAAAAAAAAAAAAAAAA"), Err(RuneError::Range));
    assert_eq!(Rune::from_str(""), Err(RuneError::Empty));
    assert_eq!(Rune::from_str("a"), Err(RuneError::Character('a')));
    assert_eq!(Rune::from_str("AB1"), Err(RuneError::Character('1')));
    assert_eq!(Rune::from_str("A\u{2022}B"), Err(RuneError::Character('\u{2022}')));
}

#[test]
fn rune_name_bijection_on_samples() {
    let mut n: u128 = 0;
    for i in 0..200u32 {
        let name = Rune(n).to_string();
        assert_eq!(Rune::from_str(&name), Ok(Rune(n)));
        n = n.wrapping_mul(31).wrapping_add(7 + u128::from(i));
    }
    for s in ["A", "HELLO", "UNCOMMONGOODS", "ZZZZZZZZZZZZZZZZZZZZZZZZZZ"] {
        assert_eq!(Rune::from_str(s).unwrap().to_string(), s);
    }
}

#[test]
fn rune_reserved() {
    assert!(!Rune(RESERVED - 1).is_reserved());
    assert!(Rune(RESERVED).is_reserved());
    assert_eq!(Rune::reserved(0, 0), Rune(RESERVED));
    assert_eq!(Rune::reserved(0, 1), Rune(RESERVED + 1));
    assert_eq!(Rune::reserved(1, 0), Rune(RESERVED + (1u128 << 32)));
    assert_eq!(Rune::reserved(840000, 7), Rune(RESERVED + (840000u128 << 32) + 7));
    assert_eq!(Rune(5).n(), 5);
}

#[test]
fn rune_commitment() {
    assert_eq!(Rune(0).commitment(), Vec::<u8>::new());
    assert_eq!(Rune(1).commitment(), vec![1u8]);
    assert_eq!(Rune(255).commitment(), vec![255u8]);
    assert_eq!(Rune(256).commitment(), vec![0u8, 1]);
    assert_eq!(Rune(65536).commitment(), vec![0u8, 0, 1]);
    assert_eq!(Rune(u128::MAX).commitment(), vec![255u8; 16]);
}

#[test]
fn minimum_name_shrinks_by_one_letter_a_step() {
    let start = 840_000u32;
    assert_eq!(Network::Bitcoin.first_rune_height(), start);
    assert_eq!(Network::Testnet.first_rune_height(), 2_520_000);
    assert_eq!(Network::Signet.first_rune_height(), 0);
    assert_eq!(Network::Regtest.first_rune_height(), 0);
    let at = |h: u32| Rune::minimum_at_height(Network::Bitcoin, Height(h)).to_string();
    assert_eq!(at(0), "AAAAAAAAAAAAA");
    assert_eq!(at(start - 1), "AAAAAAAAAAAAA");
    assert_eq!(at(start), "AAAAAAAAAAAAA");
    assert_eq!(at(start + 17_499), "AAAAAAAAAAAAA");
    assert_eq!(at(start + 17_500), "AAAAAAAAAAAA");
    assert_eq!(at(start + 2 * 17_500), "AAAAAAAAAAA");
    assert_eq!(at(start + 11 * 17_500), "AA");
    assert_eq!(at(start + 12 * 17_500 - 1), "AA");
    assert_eq!(at(start + 12 * 17_500), "A");
    assert_eq!(at(u32::MAX), "A");
    assert_eq!(
        Rune::minimum_at_height(Network::Bitcoin, Height(start)),
        Rune(99246114928149462)
    );
    assert_eq!(Rune::minimum_at_height(Network::Regtest, Height(0)).to_string(), "AAAAAAAAAAAAA");
    assert_eq!(Rune::minimum_at_height(Network::Regtest, Height(210_000)), Rune(0));
}

#[test]
fn spaced_rune_round_trip() {
    let spaced = SpacedRune::from_str("UNCOMMON\u{2022}GOODS").unwrap();
    assert_eq!(spaced.rune, Rune::from_str("UNCOMMONGOODS").unwrap());
    assert_eq!(spaced.spacers, 1 << 7);
    assert_eq!(spaced.to_string(), "UNCOMMON\u{2022}GOODS");
    assert_eq!(SpacedRune::from_str("A.B"), Ok(SpacedRune::new(Rune(27), 1)));
    assert_eq!(SpacedRune::from_str("A.B.C").unwrap().spacers, 0b11);
    assert_eq!(SpacedRune::new(Rune(27), 1).to_string(), "A\u{2022}B");
    assert_eq!(SpacedRune::new(Rune(27), 0).to_string(), "AB");
    assert_eq!(SpacedRune::new(Rune(27), 0b10).to_string(), "AB");
    assert_eq!(SpacedRune::new(Rune(0), 1).to_string(), "A");
}

#[test]
fn spaced_rune_errors() {
    assert_eq!(SpacedRune::from_str(".A"), Err(SpacedRuneError::LeadingSpacer));
    assert_eq!(SpacedRune::from_str("A."), Err(SpacedRuneError::TrailingSpacer));
    assert_eq!(SpacedRune::from_str("A..B"), Err(SpacedRuneError::DoubleSpacer));
    assert_eq!(SpacedRune::from_str("Ax"), Err(SpacedRuneError::Character('x')));
    assert_eq!(SpacedRune::from_str(""), Err(SpacedRuneError::Rune(RuneError::Empty)));
    assert_eq!(
        SpacedRune::from_str("AAAAAAAAAAAAAAAAAAAAAAAAAAAAAAAAAAAAAAAA"),
        Err(SpacedRuneError::Rune(RuneError::Range))
    );
    assert_eq!(
        SpacedRune::from_str("AAAAAAAAAAAAAAAAAAAAAAAAAAAAAAAAAAAAAAAA.A"),
        Err(SpacedRuneError::Rune(RuneError::Range))
    );
}

#[test]
fn rune_id_steps() {
    assert_eq!(RuneId::new(0, 0), Some(RuneId { block: 0, tx: 0 }));
    assert_eq!(RuneId::new(0, 1), None);
    assert_eq!(RuneId::new(1, 1), Some(RuneId { block: 1, tx: 1 }));
    assert_eq!(RuneId::default(), RuneId { block: 0, tx: 0 });
    let a = RuneId { block: 3, tx: 1 };
    let b = RuneId { block: 4, tx: 2 };
    let c = RuneId { block: 3, tx: 4 };
    assert_eq!(a.delta(b), Some((1, 2)));
    assert_eq!(a.delta(c), Some((0, 3)));
    assert_eq!(b.delta(a), None);
    assert_eq!(c.delta(a), None);
    assert_eq!(a.next(1, 2), Some(b));
    assert_eq!(a.next(0, 3), Some(c));
    assert_eq!(a.next(u128::from(u64::MAX), 0), None);
    assert_eq!(a.next(0, u128::from(u32::MAX)), None);
    assert_eq!(a.next(1, u128::from(u32::MAX) + 1), None);
    assert_eq!(RuneId::default().next(0, 1), None);
    assert!(a.lt(c) && a.le(c) && c.lt(b) && !b.le(a) && a.le(a) && !a.lt(a));
    assert!(a < c && c < b);
}

#[test]
fn decimal_digits() {
    assert_eq!(to_decimal(0), "0");
    assert_eq!(to_decimal(9), "9");
    assert_eq!(to_decimal(10), "10");
    assert_eq!(to_decimal(1_234_567_890), "1234567890");
    assert_eq!(to_decimal(u128::MAX), "340282366920938463463374607431768211455");
    assert_eq!(parse_decimal("340282366920938463463374607431768211455", 0, 39), Some(u128::MAX));
    assert_eq!(parse_decimal("340282366920938463463374607431768211456", 0, 39), None);
    assert_eq!(parse_decimal("1340282366920938463463374607431768211455", 0, 40), None);
    assert_eq!(parse_decimal("007", 0, 3), Some(7));
    assert_eq!(parse_decimal("x12y", 1, 3), Some(12));
    assert_eq!(parse_decimal("12", 1, 1), None);
    assert_eq!(parse_decimal("", 0, 0), None);
    assert_eq!(parse_decimal("1a", 0, 2), None);
    assert_eq!(parse_decimal("+1", 0, 2), None);
    assert_eq!(parse_decimal("\u{0661}", 0, 1), None);
    let mut out = "n=".to_string();
    runes_indexer::decimal::append_decimal(&mut out, 42);
    assert_eq!(out, "n=42");
}

#[test]
fn rune_id_strings() {
    let id = RuneId { block: 840_000, tx: 1 };
    assert_eq!(id.to_string(), "840000:1");
    assert_eq!(RuneId::from_str("840000:1"), Ok(id));
    assert_eq!(RuneId { block: 0, tx: 0 }.to_string(), "0:0");
    let top = RuneId { block: u64::MAX, tx: u32::MAX };
    assert_eq!(top.to_string(), "18446744073709551615:4294967295");
    assert_eq!(RuneId::from_str(&top.to_string()), Ok(top));
    assert_eq!(RuneId::from_str("0:1"), Ok(RuneId { block: 0, tx: 1 }));
    assert_eq!(RuneId::from_str("8400001"), Err(RuneIdError::Separator));
    assert_eq!(RuneId::from_str(""), Err(RuneIdError::Separator));
    assert_eq!(RuneId::from_str(":1"), Err(RuneIdError::Block));
    assert_eq!(RuneId::from_str("a:1"), Err(RuneIdError::Block));
    assert_eq!(RuneId::from_str("18446744073709551616:1"), Err(RuneIdError::Block));
    assert_eq!(RuneId::from_str("1:"), Err(RuneIdError::Transaction));
    assert_eq!(RuneId::from_str("1:2:3"), Err(RuneIdError::Transaction));
    assert_eq!(RuneId::from_str("1:4294967296"), Err(RuneIdError::Transaction));
}

#[test]
fn mint_error_words() {
    assert_eq!(MintError::Cap(5).to_string(), "limited to 5 mints");
    assert_eq!(MintError::End(1100).to_string(), "mint ended on block 1100");
    assert_eq!(MintError::Start(1000).to_string(), "mint starts on block 1000");
    assert_eq!(MintError::Unmintable.to_string(), "not mintable");
}

#[test]
fn names_with_spacers_go_round() {
    for (number, spacers) in [(0u128, 0u32), (27, 1), (27, 0), (702, 0b11), (702, 0b10), (u128::MAX, 0x07FF_FFFF)] {
        let spaced = SpacedRune::new(Rune(number), spacers);
        assert_eq!(SpacedRune::from_str(&spaced.to_string()), Ok(spaced));
    }
    let wide = SpacedRune::new(Rune(702), 0b1111_0110);
    assert_eq!(wide.to_string(), "AA\u{2022}A");
    assert_eq!(SpacedRune::from_str(&wide.to_string()), Ok(SpacedRune::new(Rune(702), 0b10)));
    for name in ["A", "Z\u{2022}Z", "A\u{2022}B\u{2022}C", "UNCOMMON\u{2022}GOODS", "BCGDENLQRQWDSLRUGSNLBTMFIJAV"] {
        assert_eq!(SpacedRune::from_str(name).unwrap().to_string(), name);
    }
    assert_eq!(SpacedRune::from_str("A.B").unwrap().to_string(), "A\u{2022}B");
}

use runes_indexer::artifact::Artifact;
use runes_indexer::artifact::Cenotaph;
use runes_indexer::artifact::Runestone;
use runes_indexer::edict::Edict;
use runes_indexer::etching::Etching;
use runes_indexer::etching::Terms;
use runes_indexer::flaw::Flaw;
use runes_indexer::flaw::Flaws;
use runes_indexer::message::Message;
use runes_indexer::rune::Rune;
use runes_indexer::rune_id::RuneId;
use runes_indexer::runestone::Payload;
use runes_indexer::tx::Tx;
use runes_indexer::tx::TxOut;
use runes_indexer::varint;

fn tx_with_scripts(scripts: Vec<Vec<u8>>) -> Tx {
    Tx {
        input: Vec::new(),
        output: scripts
            .into_iter()
            .map(|script_pubkey| TxOut { value: 0, script_pubkey })
            .collect(),
    }
}

fn payload_script(integers: &[u128]) -> Vec<u8> {
    let mut payload = Vec::new();
    for n in integers {
        varint::encode_to_vec(*n, &mut payload);
    }
    assert!(payload.len() < 76);
    let mut script = vec![0x6a, 0x5d, payload.len() as u8];
    script.extend_from_slice(&payload);
    script
}

fn decipher_integers(integers: &[u128], outputs: usize) -> Option<Artifact> {
    let mut scripts = vec![payload_script(integers)];
    while scripts.len() < outputs {
        scripts.push(vec![0x51]);
    }
    Runestone::decipher(&tx_with_scripts(scripts))
}

fn cenotaph(flaw: Flaw) -> Option<Artifact> {
    Some(Artifact::Cenotaph(Cenotaph { etching: None, mint: None, flaws: Flaws::of(flaw) }))
}

fn plain() -> Runestone {
    Runestone { edicts: Vec::new(), etching: None, mint: None, pointer: None }
}

#[test]
fn no_message_without_the_two_opcodes() {
    assert_eq!(Runestone::decipher(&tx_with_scripts(vec![])), None);
    assert_eq!(Runestone::decipher(&tx_with_scripts(vec![vec![]])), None);
    assert_eq!(Runestone::decipher(&tx_with_scripts(vec![vec![0x6a]])), None);
    assert_eq!(Runestone::decipher(&tx_with_scripts(vec![vec![0x6a, 0x5c]])), None);
    assert_eq!(Runestone::decipher(&tx_with_scripts(vec![vec![0x5d, 0x6a]])), None);
    assert_eq!(Runestone::decipher(&tx_with_scripts(vec![vec![0x6a, 0x01, 0x5d]])), None);
    assert_eq!(Runestone::decipher(&tx_with_scripts(vec![vec![0x6a, 0x4c]])), None);
    assert_eq!(Runestone::from_transaction(&tx_with_scripts(vec![vec![0x51]])), None);
}

#[test]
fn empty_message_is_an_empty_runestone() {
    assert_eq!(
        Runestone::decipher(&tx_with_scripts(vec![vec![0x6a, 0x5d]])),
        Some(Artifact::Runestone(plain()))
    );
    assert_eq!(
        Runestone::decipher(&tx_with_scripts(vec![vec![0x6a, 0x5d, 0x00]])),
        Some(Artifact::Runestone(plain()))
    );
}

#[test]
fn opcode_after_the_magic_number_is_a_flaw() {
    assert_eq!(
        Runestone::decipher(&tx_with_scripts(vec![vec![0x6a, 0x5d, 0x69]])),
        cenotaph(Flaw::Opcode)
    );
    assert_eq!(
        Runestone::decipher(&tx_with_scripts(vec![vec![0x6a, 0x5d, 0x01, 0x00, 0x51]])),
        cenotaph(Flaw::Opcode)
    );
}

#[test]
fn script_that_ends_inside_a_push_is_a_flaw() {
    assert_eq!(
        Runestone::decipher(&tx_with_scripts(vec![vec![0x6a, 0x5d, 0x05, 0x01]])),
        cenotaph(Flaw::InvalidScript)
    );
    assert_eq!(
        Runestone::decipher(&tx_with_scripts(vec![vec![0x6a, 0x5d, 0x4d, 0x01]])),
        cenotaph(Flaw::InvalidScript)
    );
}

#[test]
fn bad_varint_is_a_flaw() {
    assert_eq!(
        Runestone::decipher(&tx_with_scripts(vec![vec![0x6a, 0x5d, 0x01, 0x80]])),
        cenotaph(Flaw::Varint)
    );
}

#[test]
fn pushes_are_joined_and_long_pushes_are_read() {
    let a = Runestone::decipher(&tx_with_scripts(vec![vec![
        0x6a, 0x5d, 0x01, 22, 0x01, 0,
    ]]));
    assert_eq!(a, Some(Artifact::Runestone(Runestone { pointer: Some(0), ..plain() })));
    let b = Runestone::decipher(&tx_with_scripts(vec![vec![
        0x6a, 0x5d, 0x4c, 0x02, 22, 0,
    ]]));
    assert_eq!(b, a);
    let c = Runestone::decipher(&tx_with_scripts(vec![vec![
        0x6a, 0x5d, 0x4d, 0x02, 0x00, 22, 0,
    ]]));
    assert_eq!(c, a);
    let d = Runestone::decipher(&tx_with_scripts(vec![vec![
        0x6a, 0x5d, 0x4e, 0x02, 0x00, 0x00, 0x00, 22, 0,
    ]]));
    assert_eq!(d, a);
}

#[test]
fn first_output_with_a_message_counts() {
    let tx = tx_with_scripts(vec![
        vec![0x51],
        vec![0x6a, 0x01, 0x02],
        payload_script(&[22, 1]),
        payload_script(&[22, 0]),
    ]);
    assert_eq!(
        Runestone::decipher(&tx),
        Some(Artifact::Runestone(Runestone { pointer: Some(1), ..plain() }))
    );
    assert_eq!(
        Runestone::payload(&tx),
        Some(Payload::Valid(vec![22, 1]))
    );
}

#[test]
fn cenotaph_for_unrecognised_even_tag() {
    let artifact = decipher_integers(&[126, 0], 1);
    assert_eq!(artifact, cenotaph(Flaw::UnrecognisedEvenTag));
    match artifact {
        Some(Artifact::Cenotaph(c)) => {
            assert_eq!(c.flaws(), vec![Flaw::UnrecognisedEvenTag]);
            assert_eq!(c.flaws.to_string(), "unrecognised_even_tag");
        }
        _ => panic!("not a cenotaph"),
    }
    assert_eq!(decipher_integers(&[24, 0], 1), cenotaph(Flaw::UnrecognisedEvenTag));
}

#[test]
fn unknown_odd_tags_are_passed_over() {
    assert_eq!(decipher_integers(&[127, 5], 1), Some(Artifact::Runestone(plain())));
    assert_eq!(decipher_integers(&[99, 5, 22, 0], 1), Some(Artifact::Runestone(Runestone {
        pointer: Some(0),
        ..plain()
    })));
}

#[test]
fn only_the_first_value_of_a_tag_counts() {
    assert_eq!(decipher_integers(&[22, 0, 22, 0], 1), cenotaph(Flaw::UnrecognisedEvenTag));
    assert_eq!(decipher_integers(&[22, 5], 1), cenotaph(Flaw::UnrecognisedEvenTag));
    assert_eq!(decipher_integers(&[22, 1], 1), cenotaph(Flaw::UnrecognisedEvenTag));
    assert_eq!(
        decipher_integers(&[22, 1], 2),
        Some(Artifact::Runestone(Runestone { pointer: Some(1), ..plain() }))
    );
    let etched = |divisibility| {
        Some(Artifact::Runestone(Runestone {
            etching: Some(Etching {
                divisibility,
                premine: None,
                rune: None,
                spacers: None,
                symbol: None,
                terms: None,
            }),
            ..plain()
        }))
    };
    assert_eq!(decipher_integers(&[2, 1, 1, 38], 1), etched(Some(38)));
    assert_eq!(decipher_integers(&[2, 1, 1, 39], 1), etched(None));
    assert_eq!(decipher_integers(&[2, 1, 1, 39, 1, 5], 1), etched(None));
    assert_eq!(decipher_integers(&[2, 1, 1, 4, 1, 5], 1), etched(Some(4)));
}

#[test]
fn mint_takes_two_values() {
    assert_eq!(
        decipher_integers(&[20, 5, 20, 7], 1),
        Some(Artifact::Runestone(Runestone {
            mint: Some(RuneId { block: 5, tx: 7 }),
            ..plain()
        }))
    );
    assert_eq!(decipher_integers(&[20, 5], 1), cenotaph(Flaw::UnrecognisedEvenTag));
    assert_eq!(decipher_integers(&[20, 0, 20, 7], 1), cenotaph(Flaw::UnrecognisedEvenTag));
    assert_eq!(
        decipher_integers(&[20, 5, 20, 7, 20, 9], 1),
        Some(Artifact::Cenotaph(Cenotaph {
            etching: None,
            mint: Some(RuneId { block: 5, tx: 7 }),
            flaws: Flaws::of(Flaw::UnrecognisedEvenTag),
        }))
    );
}

#[test]
fn flags_and_fields_of_an_etching() {
    let full = decipher_integers(
        &[2, 3, 4, 5, 1, 2, 3, 1, 5, 36, 6, 100, 10, 7, 8, 9, 12, 1, 14, 2, 16, 3, 18, 4],
        1,
    );
    assert_eq!(
        full,
        Some(Artifact::Runestone(Runestone {
            etching: Some(Etching {
                divisibility: Some(2),
                premine: Some(100),
                rune: Some(Rune(5)),
                spacers: Some(1),
                symbol: Some('$'),
                terms: Some(Terms {
                    amount: Some(7),
                    cap: Some(9),
                    height: (Some(1), Some(2)),
                    offset: (Some(3), Some(4)),
                }),
            }),
            ..plain()
        }))
    );
    assert_eq!(decipher_integers(&[4, 5], 1), Some(Artifact::Runestone(plain())));
    assert_eq!(decipher_integers(&[2, 2, 10, 7], 1), Some(Artifact::Runestone(plain())));
    assert_eq!(decipher_integers(&[2, 4], 1), cenotaph(Flaw::UnrecognisedEvenTag));
    assert_eq!(
        decipher_integers(&[2, 5, 4, 9], 1),
        Some(Artifact::Cenotaph(Cenotaph {
            etching: Some(Rune(9)),
            mint: None,
            flaws: Flaws::of(Flaw::UnrecognisedEvenTag),
        }))
    );
    assert_eq!(
        decipher_integers(&[2, 1, 3, 0x7FFFF], 1),
        Some(Artifact::Runestone(Runestone {
            etching: Some(Etching {
                divisibility: None,
                premine: None,
                rune: None,
                spacers: Some(0x7FFFF),
                symbol: None,
                terms: None,
            }),
            ..plain()
        }))
    );
    assert_eq!(
        decipher_integers(&[2, 1, 3, 0x80000, 5, 0xD800], 1),
        Some(Artifact::Runestone(Runestone {
            etching: Some(Etching {
                divisibility: None,
                premine: None,
                rune: None,
                spacers: None,
                symbol: None,
                terms: None,
            }),
            ..plain()
        }))
    );
    assert_eq!(decipher_integers(&[12, u128::from(u64::MAX) + 1], 1), cenotaph(Flaw::UnrecognisedEvenTag));
}

#[test]
fn supply_overflow_is_a_flaw() {
    assert_eq!(
        decipher_integers(&[2, 3, 4, 9, 6, u128::MAX, 8, 1, 10, 1], 1),
        Some(Artifact::Cenotaph(Cenotaph {
            etching: Some(Rune(9)),
            mint: None,
            flaws: Flaws::of(Flaw::SupplyOverflow),
        }))
    );
    assert_eq!(
        decipher_integers(&[8, u128::MAX, 10, 2], 1),
        cenotaph(Flaw::SupplyOverflow)
    );
    let both = decipher_integers(&[8, u128::MAX, 10, 2, 126, 0], 1);
    match both {
        Some(Artifact::Cenotaph(c)) => {
            assert_eq!(c.flaws(), vec![Flaw::SupplyOverflow, Flaw::UnrecognisedEvenTag]);
            assert_eq!(c.flaws.to_string(), "supply_overflow,unrecognised_even_tag");
        }
        _ => panic!("not a cenotaph"),
    }
}

#[test]
fn flaws_of_the_body() {
    let edict = |block, tx, amount, output| Edict { id: RuneId { block, tx }, amount, output };
    assert_eq!(
        decipher_integers(&[0, 1, 1, 2, 0, 0, 5, 3, 1, 2, 0, 4, 1], 1),
        Some(Artifact::Runestone(Runestone {
            edicts: vec![edict(1, 1, 2, 0), edict(1, 6, 3, 1), edict(3, 0, 4, 1)],
            ..plain()
        }))
    );
    assert_eq!(decipher_integers(&[0, 1, 1, 2], 1), cenotaph(Flaw::TrailingIntegers));
    assert_eq!(decipher_integers(&[0, 1, 1, 2, 0, 7], 1), cenotaph(Flaw::TrailingIntegers));
    assert_eq!(decipher_integers(&[0, 0, 1, 2, 0], 1), cenotaph(Flaw::EdictRuneId));
    assert_eq!(
        decipher_integers(&[0, u128::from(u64::MAX) + 1, 1, 2, 0], 1),
        cenotaph(Flaw::EdictRuneId)
    );
    assert_eq!(decipher_integers(&[0, 1, 1, 2, 2], 1), cenotaph(Flaw::EdictOutput));
    assert_eq!(
        decipher_integers(&[0, 1, 1, 2, u128::from(u32::MAX) + 1], 1),
        cenotaph(Flaw::EdictOutput)
    );
    assert_eq!(decipher_integers(&[22], 1), cenotaph(Flaw::TruncatedField));
    assert_eq!(
        decipher_integers(&[20, 5, 20, 7, 0, 1, 1, 2], 1),
        Some(Artifact::Cenotaph(Cenotaph {
            etching: None,
            mint: Some(RuneId { block: 5, tx: 7 }),
            flaws: Flaws::of(Flaw::TrailingIntegers),
        }))
    );
    let message = Message::from_integers(1, &[22, 0, 0, 1, 1, 2, 1, 9]);
    assert_eq!(message.fields, vec![(22, 0)]);
    assert_eq!(message.edicts, vec![edict(1, 1, 2, 1)]);
    assert_eq!(message.flaws, Flaws::of(Flaw::TrailingIntegers));
}

#[test]
fn flaw_words() {
    let words: Vec<String> = [
        Flaw::Opcode,
        Flaw::Varint,
        Flaw::EdictOutput,
        Flaw::EdictRuneId,
        Flaw::InvalidScript,
        Flaw::SupplyOverflow,
        Flaw::TruncatedField,
        Flaw::UnrecognisedEvenTag,
        Flaw::TrailingIntegers,
    ]
    .iter()
    .map(|flaw| flaw.to_string())
    .collect();
    assert_eq!(
        words,
        vec![
            "opcode",
            "varint",
            "edict_output",
            "edict_rune_id",
            "invalid_script",
            "supply_overflow",
            "truncated_field",
            "unrecognised_even_tag",
            "trailing_integers",
        ]
    );
    let mut flaws = Flaws::new();
    assert!(flaws.is_empty());
    assert_eq!(flaws.to_string(), "");
    flaws.insert(Flaw::TrailingIntegers);
    flaws.insert(Flaw::Opcode);
    assert!(flaws.contains(Flaw::Opcode) && !flaws.contains(Flaw::Varint));
    assert_eq!(flaws.flaws(), vec![Flaw::Opcode, Flaw::TrailingIntegers]);
    assert_eq!(flaws.to_string(), "opcode,trailing_integers");
}

#[test]
fn encipher_gives_the_expected_bytes() {
    assert_eq!(plain().encipher(), vec![0x6a, 0x5d]);
    let one = Runestone {
        edicts: vec![Edict { id: RuneId { block: 1, tx: 1 }, amount: 2, output: 0 }],
        ..plain()
    };
    assert_eq!(one.encipher(), vec![0x6a, 0x5d, 0x05, 0, 1, 1, 2, 0]);
    let full = Runestone {
        edicts: vec![
            Edict { id: RuneId { block: 300, tx: 4 }, amount: 5, output: 1 },
            Edict { id: RuneId { block: 2, tx: 9 }, amount: 7, output: 0 },
            Edict { id: RuneId { block: 2, tx: 3 }, amount: 0, output: 2 },
        ],
        etching: Some(Etching {
            divisibility: Some(2),
            premine: Some(100),
            rune: Some(Rune(5)),
            spacers: Some(1),
            symbol: Some('$'),
            terms: Some(Terms {
                amount: Some(7),
                cap: Some(9),
                height: (Some(1), None),
                offset: (None, Some(4)),
            }),
        }),
        mint: Some(RuneId { block: 17, tx: 18 }),
        pointer: Some(0),
    };
    assert_eq!(
        full.payload_bytes(),
        vec![
            2, 3, 4, 5, 1, 2, 3, 1, 5, 36, 6, 100, 10, 7, 8, 9, 12, 1, 18, 4, 20, 17, 20, 18, 22,
            0, 0, 2, 3, 0, 2, 0, 6, 7, 0, 0xaa, 0x02, 4, 5, 1,
        ]
    );
    let script = full.encipher();
    assert_eq!(&script[..3], &[0x6a, 0x5d, 40]);
    assert_eq!(&script[3..], &full.payload_bytes()[..]);
}

#[test]
fn encipher_is_what_the_script_builder_writes() {
    let stone = Runestone {
        edicts: (0..200u32)
            .map(|i| Edict {
                id: RuneId { block: 1 + u64::from(i) * 1000, tx: i },
                amount: u128::MAX - u128::from(i),
                output: 0,
            })
            .collect(),
        mint: Some(RuneId { block: 1, tx: 0 }),
        ..plain()
    };
    let payload = stone.payload_bytes();
    assert!(payload.len() > 1040);
    let mut builder = bitcoin::blockdata::script::Builder::new()
        .push_opcode(bitcoin::blockdata::opcodes::all::OP_RETURN)
        .push_opcode(bitcoin::blockdata::opcodes::all::OP_PUSHNUM_13);
    for chunk in payload.chunks(520) {
        let push: &bitcoin::blockdata::script::PushBytes = chunk.try_into().unwrap();
        builder = builder.push_slice(push);
    }
    let script = stone.encipher();
    assert_eq!(script, builder.into_bytes());
    assert_eq!(&script[2..5], &[0x4d, 0x08, 0x02]);
    let tx = tx_with_scripts(vec![script]);
    assert_eq!(Runestone::decipher(&tx), Some(Artifact::Runestone(stone)));
}

#[test]
fn decipher_undoes_encipher() {
    let stone = Runestone {
        edicts: vec![
            Edict { id: RuneId { block: 0, tx: 0 }, amount: 1, output: 2 },
            Edict { id: RuneId { block: 2, tx: 3 }, amount: 0, output: 2 },
            Edict { id: RuneId { block: 2, tx: 3 }, amount: 9, output: 1 },
            Edict { id: RuneId { block: 2, tx: 9 }, amount: 7, output: 0 },
            Edict { id: RuneId { block: 300, tx: 4 }, amount: u128::MAX, output: 1 },
        ],
        etching: Some(Etching {
            divisibility: Some(38),
            premine: Some(1000),
            rune: Some(Rune::from_str("UNCOMMONGOODS").unwrap()),
            spacers: Some(128),
            symbol: Some('\u{29c9}'),
            terms: Some(Terms {
                amount: Some(u128::from(u64::MAX)),
                cap: Some(u128::from(u32::MAX)),
                height: (Some(u64::MAX), None),
                offset: (Some(0), Some(100)),
            }),
        }),
        mint: Some(RuneId { block: u64::MAX, tx: u32::MAX }),
        pointer: Some(1),
    };
    let tx = tx_with_scripts(vec![vec![0x51], stone.encipher()]);
    assert_eq!(Runestone::decipher(&tx), Some(Artifact::Runestone(stone)));
    let bare = Runestone {
        etching: Some(Etching {
            divisibility: None,
            premine: None,
            rune: None,
            spacers: None,
            symbol: None,
            terms: None,
        }),
        ..plain()
    };
    let tx = tx_with_scripts(vec![bare.encipher()]);
    assert_eq!(Runestone::decipher(&tx), Some(Artifact::Runestone(bare)));
}

#[test]
fn encipher_sorts_edicts_and_keeps_the_order_within_a_rune() {
    let stone = Runestone {
        edicts: vec![
            Edict { id: RuneId { block: 5, tx: 1 }, amount: 1, output: 0 },
            Edict { id: RuneId { block: 2, tx: 3 }, amount: 2, output: 0 },
            Edict { id: RuneId { block: 5, tx: 1 }, amount: 3, output: 0 },
            Edict { id: RuneId { block: 2, tx: 3 }, amount: 4, output: 0 },
        ],
        ..plain()
    };
    let tx = tx_with_scripts(vec![stone.encipher()]);
    let amounts: Vec<u128> = match Runestone::decipher(&tx) {
        Some(Artifact::Runestone(read)) => read.edicts.iter().map(|e| e.amount).collect(),
        _ => panic!("not a runestone"),
    };
    assert_eq!(amounts, vec![2, 4, 1, 3]);
}

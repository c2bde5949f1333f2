use quantum_animal_shogi::bits::bit_positions_exec;
use quantum_animal_shogi::bits::mirror12_exec;
use quantum_animal_shogi::bits::reverse12_exec;
use quantum_animal_shogi::encode::canonical_key;
use quantum_animal_shogi::encode::convert_state_to_u128;
use quantum_animal_shogi::moves::nexts_exec;
use quantum_animal_shogi::search::count_reachable_states;
use quantum_animal_shogi::state::Game;
use quantum_animal_shogi::state::State;
use quantum_animal_shogi::state::turn_left_right;
use quantum_animal_shogi::terminal::is_terminal_state;

#[test]
fn initial_state_shape() {
    let s = Game::initial_state();
    assert_eq!(s.ownership, 0b00001111);
    assert_eq!(s.bit_boards, [1, 2, 4, 16, 128, 512, 1024, 2048]);
    assert_eq!(s.pieces, [0b01111; 8]);
    assert_eq!(s.turn, 0);
}

#[test]
fn initial_legality_count() {
    let s = Game::initial_state();
    let acts = Game::legal_actions(&s);
    assert_eq!(acts.len(), 9);
    assert_eq!(
        acts,
        vec![
            (0, 3),
            (1, 3),
            (1, 5),
            (2, 5),
            (4, 3),
            (4, 5),
            (4, 6),
            (4, 7),
            (4, 8)
        ]
    );
}

#[test]
fn narrowing_on_first_move() {
    // Moving from square 0 to square 3 is one step toward the far row, so
    // only the kinds with that move remain: chick, giraffe and lion (the
    // lion moves in every direction). The elephant, a diagonal mover, is
    // ruled out.
    let s = Game::initial_state();
    let ns = Game::next_state(&s, (0, 3)).unwrap();
    assert_eq!(ns.pieces[0], 0b01011);
    for i in 1..8 {
        assert_eq!(ns.pieces[i], 0b01111);
    }
    // The mover stands on square 3, seen from the rotated perspective.
    assert_eq!(ns.bit_boards[0], 1 << 8);
    assert_eq!(ns.ownership, 0b11110000);
    assert_eq!(ns.turn, 1);
}

#[test]
fn exhaustion_collapse_forces_lion() {
    let s = State {
        pieces: [0b0001, 0b0010, 0b0100, 0b1111, 0b1111, 0b1111, 0b1111, 0b1111],
        ownership: 0b00001111,
        bit_boards: [1, 2, 4, 16, 128, 512, 1024, 2048],
        turn: 0,
    };
    let c = Game::collapse(&s);
    assert_eq!(c.pieces[0], 0b0001);
    assert_eq!(c.pieces[1], 0b0010);
    assert_eq!(c.pieces[2], 0b0100);
    assert_eq!(c.pieces[3], 0b1000);
    for i in 4..8 {
        assert_eq!(c.pieces[i], 0b1111);
    }
    assert_eq!(c.bit_boards, s.bit_boards);
    assert_eq!(c.ownership, s.ownership);
}

#[test]
fn lion_in_hand_strip() {
    // The capture (4, 7) takes the opponent piece on square 7 into the
    // mover's hand. A piece in hand cannot have been the lion, so its lion
    // possibility is cleared.
    let s = Game::initial_state();
    let ns = Game::next_state(&s, (4, 7)).unwrap();
    assert_eq!(ns.pieces[4], 0b0111);
    assert_eq!(ns.bit_boards[4], 0);
    // The mover narrowed to the straight-ahead kinds.
    assert_eq!(ns.pieces[3], 0b1011);
}

#[test]
fn illegal_actions_give_none() {
    let s = Game::initial_state();
    // Destination occupied by an own piece.
    assert!(Game::next_state(&s, (0, 1)).is_none());
    // No piece on the origin square.
    assert!(Game::next_state(&s, (3, 6)).is_none());
    // No hand piece to drop.
    assert!(Game::next_state(&s, (12, 6)).is_none());
}

#[test]
fn canonical_key_of_initial_matches_mirror() {
    let s = Game::initial_state();
    let m = turn_left_right(&s);
    assert_eq!(canonical_key(&s), canonical_key(&m));
    assert_eq!(convert_state_to_u128(&s), convert_state_to_u128(&m));
}

#[test]
fn canonical_key_collision_on_mirror() {
    // An asymmetric position and its mirror share one canonical key.
    let s = Game::initial_state();
    let ns = Game::next_state(&s, (1, 5)).unwrap();
    let mirrored = turn_left_right(&ns);
    assert_ne!(convert_state_to_u128(&ns), convert_state_to_u128(&mirrored));
    assert_eq!(canonical_key(&ns), canonical_key(&mirrored));
}

#[test]
fn mirror_twice_is_identity() {
    let s = Game::initial_state();
    let ns = Game::next_state(&s, (4, 7)).unwrap();
    assert_eq!(turn_left_right(&turn_left_right(&ns)), ns);
    assert_eq!(turn_left_right(&turn_left_right(&s)), s);
}

#[test]
fn encoding_of_initial_state() {
    let s = Game::initial_state();
    assert_eq!(convert_state_to_u128(&s), 0xdfbf780de0000f003c78f_u128);
}

#[test]
fn encoding_sorts_hand_descriptors() {
    // Two positions that differ only in which hand slot holds which mask
    // encode identically: hand descriptors are sorted before packing.
    let a = State {
        pieces: [0b1111, 0b1111, 0b1111, 0b1111, 0b0001, 0b0010, 0b1111, 0b1111],
        ownership: 0b00111111,
        bit_boards: [1, 2, 4, 16, 0, 0, 1024, 2048],
        turn: 0,
    };
    let b = State {
        pieces: [0b1111, 0b1111, 0b1111, 0b1111, 0b0010, 0b0001, 0b1111, 0b1111],
        ownership: 0b00111111,
        bit_boards: [1, 2, 4, 16, 0, 0, 1024, 2048],
        turn: 0,
    };
    assert_eq!(convert_state_to_u128(&a), convert_state_to_u128(&b));
}

#[test]
fn won_sees_certain_lion_in_hand() {
    let s = State {
        pieces: [0b1111, 0b1111, 0b1111, 0b1111, 0b1000, 0b1111, 0b1111, 0b1111],
        ownership: 0b11100000,
        bit_boards: [1, 2, 4, 16, 0, 512, 1024, 2048],
        turn: 1,
    };
    assert!(Game::won(&s));
    assert!(!Game::won(&Game::initial_state()));
}

#[test]
fn lost_sees_possible_lion_on_home_row() {
    let s = State {
        pieces: [0b1111, 0b1111, 0b1111, 0b1111, 0b1010, 0b1111, 0b1111, 0b1111],
        ownership: 0b00001111,
        bit_boards: [8, 16, 32, 64, 2, 512, 1024, 2048],
        turn: 0,
    };
    assert!(Game::lost(&s));
    assert!(!Game::lost(&Game::initial_state()));
}

#[test]
fn initial_state_is_not_terminal() {
    let s = Game::initial_state();
    assert!(!is_terminal_state(&s));
}

#[test]
fn terminal_on_winning_capture() {
    // The opponent slot on square 7 is known with certainty to be the lion;
    // the piece on square 4 can capture it, so the state is terminal.
    let s = State {
        pieces: [0b1111, 0b1111, 0b1111, 0b1111, 0b1000, 0b0111, 0b0111, 0b0111],
        ownership: 0b00001111,
        bit_boards: [1, 2, 4, 16, 128, 512, 1024, 2048],
        turn: 0,
    };
    assert!(is_terminal_state(&s));
}

#[test]
fn search_with_empty_budget_counts_initial() {
    let (count, finished) = count_reachable_states(0);
    assert_eq!(count, 1);
    assert!(!finished);
}

#[test]
fn search_grows_with_budget() {
    let (c1, _) = count_reachable_states(1);
    let (c2, _) = count_reachable_states(50);
    assert!(c1 >= 1);
    assert!(c2 >= c1);
}

#[test]
fn move_table_entries() {
    // The chick on square 0 reaches only square 3.
    assert_eq!(nexts_exec(0, 0), 1u16 << 3);
    // The lion on square 4 reaches all eight neighbours.
    assert_eq!(nexts_exec(3, 4), 0b0001_1110_1111u16);
    // The hen on square 4 reaches all but the lower diagonals.
    assert_eq!(
        nexts_exec(4, 4),
        (1u16 << 1) | (1 << 3) | (1 << 5) | (1 << 6) | (1 << 7) | (1 << 8)
    );
}

#[test]
fn bit_helpers() {
    assert_eq!(mirror12_exec(0b000_000_000_001), 0b000_000_000_100);
    assert_eq!(mirror12_exec(0b000_000_000_010), 0b000_000_000_010);
    assert_eq!(reverse12_exec(0b000_000_000_001), 0b100_000_000_000);
    assert_eq!(reverse12_exec(0b100_000_000_010), 0b010_000_000_001);
    assert_eq!(bit_positions_exec(0b101), vec![0, 2]);
    assert_eq!(bit_positions_exec(0), Vec::<u8>::new());
}

#[test]
fn legal_actions_after_capture() {
    // After the capture the mover, now the opponent, has one hand piece;
    // drops appear after board moves in the enumeration.
    let s = Game::initial_state();
    let ns = Game::next_state(&s, (4, 7)).unwrap();
    let acts = Game::legal_actions(&ns);
    assert!(acts.iter().all(|a| a.1 < 12));
    assert!(acts.iter().all(|a| a.0 < 12));
    // The new side to move has no hand piece; the previous mover does.
    let back = Game::next_state(&ns, acts[0]).unwrap();
    let acts2 = Game::legal_actions(&back);
    assert!(acts2.iter().any(|a| a.0 >= 12));
}

#[test]
fn dropped_piece_keeps_its_mask() {
    // Drop the captured piece back onto an empty square: no collapse runs.
    let s = Game::initial_state();
    let ns = Game::next_state(&s, (4, 7)).unwrap();
    let skip = Game::next_state(&ns, Game::legal_actions(&ns)[0]).unwrap();
    let drops: Vec<(u8, u8)> = Game::legal_actions(&skip)
        .into_iter()
        .filter(|a| a.0 >= 12)
        .collect();
    assert!(!drops.is_empty());
    let hand: Vec<usize> = (0..8)
        .filter(|&i| skip.ownership >> i & 1 == 1 && skip.bit_boards[i] == 0)
        .collect();
    assert_eq!(hand.len(), 1);
    let h: usize = hand[0];
    let after = Game::next_state(&skip, drops[0]).unwrap();
    assert_eq!(after.pieces[h], skip.pieces[h]);
    assert_ne!(after.bit_boards[h], 0);
}

#[test]
fn two_moves_preserve_board_invariants() {
    // After any two legal half-moves every bitboard still holds at most one
    // square within the low 12 bits, and no two slots share a square.
    let s = Game::initial_state();
    for a in Game::legal_actions(&s) {
        let n1 = Game::next_state(&s, a).unwrap();
        for b in Game::legal_actions(&n1) {
            let n2 = Game::next_state(&n1, b).unwrap();
            for i in 0..8 {
                assert!(n2.bit_boards[i].count_ones() <= 1);
                assert_eq!(n2.bit_boards[i] & 0xf000, 0);
                for j in 0..8 {
                    if i != j {
                        assert_eq!(n2.bit_boards[i] & n2.bit_boards[j], 0);
                    }
                }
            }
        }
    }
}

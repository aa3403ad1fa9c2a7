use emf_mmf::config::MotorConfig;
use emf_mmf::winding::{
    can_short_pitch, coil_pitch, compute_conductors, compute_winding, starts_coil, Conductor,
    Direction, SlotAssignment, SlotPacking,
};

fn config(groove_count: usize, phases: usize, pole_pairs: usize, layers: usize) -> MotorConfig {
    MotorConfig {
        groove_count,
        phases,
        pole_pairs,
        layers,
        ..Default::default()
    }
}

/// Groups the conductors of one slot, keeping packing order.
fn slot_of(conductors: &[Conductor], slot: usize) -> Vec<&Conductor> {
    conductors.iter().filter(|c| c.slot == slot).collect()
}

/// A full-pitch winding has both coil sides of a slot on the same phase,
/// so the slot behaves exactly like the single-layer model.
#[test]
fn full_pitch_keeps_a_slot_on_one_phase() {
    let cfg = config(12, 3, 1, 4);
    assert!(!cfg.short_pitched);
    let assignments = compute_winding(&cfg);
    let conductors = compute_conductors(&cfg, &assignments);

    for slot in 0..cfg.groove_count {
        let wires = slot_of(&conductors, slot);
        assert_eq!(wires.len(), 4, "slot {slot}");
        let first = wires[0];
        for w in &wires {
            assert_eq!(w.phase, first.phase, "slot {slot} mixed phases at full pitch");
            assert_eq!(w.direction, first.direction, "slot {slot} mixed directions");
        }
    }
}

/// Chording is precisely what makes the two layers of a slot disagree.
#[test]
fn short_pitch_mixes_two_phases_in_some_slots() {
    let mut cfg = config(12, 3, 1, 4);
    cfg.short_pitched = true;
    let assignments = compute_winding(&cfg);
    let conductors = compute_conductors(&cfg, &assignments);

    let mixed = (0..cfg.groove_count)
        .filter(|&slot| {
            let wires = slot_of(&conductors, slot);
            wires.iter().any(|w| w.phase != wires[0].phase)
        })
        .count();

    assert!(mixed > 0, "short pitching produced no mixed slot");
    assert!(
        mixed < cfg.groove_count,
        "every slot mixed — chording should only touch belt boundaries"
    );
}

/// One conductor per slot must reproduce the plain single-layer winding.
#[test]
fn single_conductor_matches_the_belt_assignment() {
    let mut cfg = config(24, 3, 2, 1);
    cfg.short_pitched = true;
    let assignments = compute_winding(&cfg);
    let conductors = compute_conductors(&cfg, &assignments);

    assert_eq!(conductors.len(), cfg.groove_count);
    for conductor in &conductors {
        let belt = assignments[conductor.slot].as_ref().expect("belt");
        assert_eq!(conductor.layer, 0);
        assert_eq!(conductor.phase, belt.phase);
        assert_eq!(conductor.direction, belt.direction);
    }
}

/// Both coil sides must carry the same number of turns.
#[test]
fn layers_split_evenly_for_even_counts() {
    for count in [2_usize, 4, 6] {
        let cfg = config(12, 3, 1, count);
        let assignments = compute_winding(&cfg);
        let conductors = compute_conductors(&cfg, &assignments);

        let wires = slot_of(&conductors, 0);
        let deep = wires.iter().filter(|w| w.layer == 0).count();
        let shallow = wires.iter().filter(|w| w.layer == 1).count();
        assert_eq!(deep, shallow, "layers={count} unbalanced: {deep} vs {shallow}");
    }
}

/// A row that is not full must be centred on the slot axis.
#[test]
fn a_lone_trailing_conductor_sits_on_the_slot_axis() {
    // 1, 3 and 5 all end with a single conductor in the last row.
    for count in [1_usize, 3, 5] {
        let packing = SlotPacking::new(count);
        assert_eq!(
            packing.column_offset_halves(count - 1),
            0,
            "layers={count}: last conductor is off-axis"
        );
    }
    // An even count fills its last row, so the two straddle the axis.
    let packing = SlotPacking::new(4);
    assert_eq!(packing.column_offset_halves(2) + packing.column_offset_halves(3), 0);
}

/// The described packing: two per row, filling from the slot bottom.
#[test]
fn packing_is_two_per_row() {
    let cases = [(1_usize, 1_usize, 1_usize), (2, 1, 2), (4, 2, 2), (6, 3, 2)];
    for (count, rows, cols) in cases {
        let packing = SlotPacking::new(count);
        assert_eq!(packing.rows, rows, "layers={count}");
        assert_eq!(packing.cols, cols, "layers={count}");
    }
}

/// Regression: the coil-start filter was inherited from the single-layer
/// model, which drops half the coils of a double-layer winding.
#[test]
fn every_slot_starts_a_coil_in_a_double_layer_winding() {
    for short_pitched in [false, true] {
        for count in [2_usize, 4, 6] {
            let mut cfg = config(12, 3, 1, count);
            cfg.short_pitched = short_pitched;
            let assignments = compute_winding(&cfg);
            let conductors = compute_conductors(&cfg, &assignments);

            let deep = SlotPacking::new(count).deep_count();
            let starting: Vec<_> = conductors
                .iter()
                .filter(|c| starts_coil(c, cfg.layers))
                .collect();

            // One coil per slot, carried by every conductor of the deep half.
            assert_eq!(
                starting.len(),
                cfg.groove_count * deep,
                "layers={count} short_pitched={short_pitched}"
            );

            for slot in 0..cfg.groove_count {
                let from_slot = starting.iter().filter(|c| c.slot == slot).count();
                assert_eq!(
                    from_slot, deep,
                    "slot {slot} starts {from_slot} coils, expected {deep} \
                     (layers={count}, short_pitched={short_pitched})"
                );
            }
        }
    }
}

/// A single-layer winding has half as many coils: only the outgoing sides
/// start one, since the return side is the far end of another coil.
#[test]
fn single_layer_starts_half_as_many_coils() {
    let cfg = config(12, 3, 1, 1);
    let assignments = compute_winding(&cfg);
    let conductors = compute_conductors(&cfg, &assignments);

    let starting = conductors
        .iter()
        .filter(|c| starts_coil(c, cfg.layers))
        .count();
    assert_eq!(starting, cfg.groove_count / 2);
}

/// Chording needs two layers; with one, asking for it must be a no-op.
#[test]
fn a_single_layer_winding_cannot_be_short_pitched() {
    for n in [12_usize, 24, 36] {
        let mut full = config(n, 3, 2, 1);
        full.short_pitched = false;
        let mut chorded = full.clone();
        chorded.short_pitched = true;

        assert!(!can_short_pitch(&chorded));
        assert_eq!(
            coil_pitch(&chorded),
            coil_pitch(&full),
            "n={n}: chording changed the pitch of a single-layer winding"
        );

        // The slot occupancy is what produces the MMF; it must be identical.
        let a = compute_conductors(&full, &compute_winding(&full));
        let b = compute_conductors(&chorded, &compute_winding(&chorded));
        assert_eq!(a.len(), b.len());
        for (x, y) in a.iter().zip(b.iter()) {
            assert_eq!((x.slot, x.phase, x.direction), (y.slot, y.phase, y.direction));
        }
    }
}

/// With two layers or more chording must still do something.
#[test]
fn two_layers_can_still_be_short_pitched() {
    let mut cfg = config(24, 3, 2, 2);
    cfg.short_pitched = true;
    assert!(can_short_pitch(&cfg));

    let mut full = cfg.clone();
    full.short_pitched = false;
    assert_ne!(coil_pitch(&cfg), coil_pitch(&full));
}

/// A coil is a loop of one phase: it must return into a slot carrying that
/// same phase with the opposite polarity.
#[test]
fn every_endwinding_returns_into_its_own_phase() {
    for short_pitched in [false, true] {
        for count in [1_usize, 2, 4, 6] {
            let mut cfg = config(24, 3, 2, count);
            cfg.short_pitched = short_pitched;
            let assignments = compute_winding(&cfg);
            let conductors = compute_conductors(&cfg, &assignments);
            let pitch = coil_pitch(&cfg);
            let n = cfg.groove_count;

            for start in conductors.iter().filter(|c| starts_coil(c, cfg.layers)) {
                let return_slot = (start.slot + pitch) % n;
                let partner = SlotPacking::new(count).coil_partner(start.index);
                let far_side = conductors
                    .iter()
                    .find(|c| c.slot == return_slot && c.index == partner)
                    .expect("the endwinding must land on a real conductor");

                assert_eq!(
                    far_side.phase, start.phase,
                    "layers={count} short_pitched={short_pitched}: slot {} phase {} \
                     wires to slot {return_slot} phase {}",
                    start.slot, start.phase, far_side.phase
                );
                assert_eq!(
                    far_side.direction,
                    start.direction.reversed(),
                    "layers={count} short_pitched={short_pitched}: slot {} does not \
                     close a loop with slot {return_slot}",
                    start.slot
                );
            }
        }
    }
}

/// A coil always leaves the deep half and returns into the shallow half.
#[test]
fn coil_partner_crosses_to_the_other_layer() {
    for count in [2_usize, 4, 6] {
        let packing = SlotPacking::new(count);
        let deep = packing.deep_count();
        for index in 0..deep {
            let partner = packing.coil_partner(index);
            assert!(
                partner >= deep && partner < count,
                "layers={count}: wire {index} returns to {partner}, not a shallow wire"
            );
        }
    }
    // With a single conductor there is no second layer to cross into.
    assert_eq!(SlotPacking::new(1).coil_partner(0), 0);
}

// ─── Further cases ────────────────────────────────────────────────────────────

fn belt(phase: usize, direction: Direction) -> Option<SlotAssignment> {
    Some(SlotAssignment { phase, direction })
}

#[test]
fn three_phase_belts_interleave_in_and_out() {
    // S=12, m=3, p=1: q = 2, belts A+ C- B+ A- C+ B-.
    let w = compute_winding(&config(12, 3, 1, 1));
    let expected = [
        belt(0, Direction::In),
        belt(0, Direction::In),
        belt(2, Direction::Out),
        belt(2, Direction::Out),
        belt(1, Direction::In),
        belt(1, Direction::In),
        belt(0, Direction::Out),
        belt(0, Direction::Out),
        belt(2, Direction::In),
        belt(2, Direction::In),
        belt(1, Direction::Out),
        belt(1, Direction::Out),
    ];
    assert_eq!(w, expected.to_vec());
}

#[test]
fn two_phase_belts_go_in_then_come_back() {
    // S=8, m=2, p=1: q = 2, belts A+ B+ A- B-.
    let w = compute_winding(&config(8, 2, 1, 1));
    let expected = [
        belt(0, Direction::In),
        belt(0, Direction::In),
        belt(1, Direction::In),
        belt(1, Direction::In),
        belt(0, Direction::Out),
        belt(0, Direction::Out),
        belt(1, Direction::Out),
        belt(1, Direction::Out),
    ];
    assert_eq!(w, expected.to_vec());
}

#[test]
fn an_invalid_machine_leaves_every_slot_empty() {
    for cfg in [config(24, 3, 3, 1), config(10, 0, 1, 1), config(10, 2, 0, 1), config(4, 3, 1, 1)] {
        let w = compute_winding(&cfg);
        assert_eq!(w.len(), cfg.groove_count);
        assert!(w.iter().all(|a| a.is_none()));
        if cfg.pole_pairs > 0 {
            assert!(compute_conductors(&cfg, &w).is_empty());
        }
    }
}

#[test]
fn the_next_pole_reverses_every_belt() {
    let cfg = config(24, 3, 2, 1);
    let w = compute_winding(&cfg);
    let spp = 24 / 4;
    for slot in 0..24 {
        let here = w[slot].unwrap();
        let there = w[(slot + spp) % 24].unwrap();
        assert_eq!(there.phase, here.phase);
        assert_eq!(there.direction, here.direction.reversed());
    }
}

#[test]
fn coil_pitch_values() {
    let mut cfg = config(24, 3, 2, 2);
    assert_eq!(coil_pitch(&cfg), 6);
    cfg.short_pitched = true;
    assert_eq!(coil_pitch(&cfg), 5);
    // Never below one slot.
    let mut tiny = config(2, 1, 1, 2);
    tiny.short_pitched = true;
    assert_eq!(coil_pitch(&tiny), 1);
}

#[test]
fn conductors_need_a_matching_assignment_list() {
    let cfg = config(12, 3, 1, 2);
    let w = compute_winding(&cfg);
    assert!(compute_conductors(&cfg, &w[..11]).is_empty());
    assert!(compute_conductors(&config(0, 3, 1, 2), &[]).is_empty());
}

#[test]
fn chorded_shallow_layer_takes_the_slot_pitch_back() {
    // S=12, m=3, p=1, two layers, pitch 5: the shallow conductor of slot 0
    // is the reversed belt of slot 12 - 5 = 7 (phase 0 out), i.e. phase 0 in.
    let mut cfg = config(12, 3, 1, 2);
    cfg.short_pitched = true;
    let w = compute_winding(&cfg);
    let c = compute_conductors(&cfg, &w);
    assert_eq!(c.len(), 24);
    assert_eq!(
        c[1],
        Conductor { slot: 0, index: 1, layer: 1, phase: 0, direction: Direction::In }
    );
    // Slot 2 holds phase 2 out deep and, from slot 9, phase 2 out shallow.
    assert_eq!(c[4].phase, 2);
    assert_eq!(c[5], Conductor { slot: 2, index: 1, layer: 1, phase: 2, direction: Direction::Out });
}

#[test]
fn packing_queries() {
    let p = SlotPacking::new(5);
    assert_eq!((p.rows, p.cols), (3, 2));
    assert_eq!(p.row_col(3), (1, 1));
    assert_eq!(p.row_occupancy(0), 2);
    assert_eq!(p.row_occupancy(2), 1);
    assert_eq!(p.column_offset_halves(0), -1);
    assert_eq!(p.column_offset_halves(1), 1);
    assert_eq!(p.deep_count(), 3);
    assert_eq!(p.layer_of(2), 0);
    assert_eq!(p.layer_of(3), 1);
    assert_eq!(p.coil_partner(0), 3);
    assert_eq!(p.coil_partner(2), 3);
    let zero = SlotPacking::new(0);
    assert_eq!((zero.count, zero.rows, zero.cols), (1, 1, 1));
    assert_eq!(zero.layer_of(0), 0);
}

/// Slots that do not split into `2·p·m` belts leave the machine unwound, so
/// every winding function is flat.
#[test]
fn an_invalid_machine_has_no_conductors() {
    let cfg = config(25, 3, 1, 2);
    let assignments = compute_winding(&cfg);
    assert_eq!(assignments.len(), 25);
    assert!(assignments.iter().all(|a| a.is_none()));
    let conductors = compute_conductors(&cfg, &assignments);
    assert!(conductors.is_empty());
    let wf = emf_mmf::winding_scheme::winding_function_samples(25, 3, &conductors, 50);
    assert_eq!(wf, vec![vec![0i64; 50]; 3]);
}

/// Every phase of a valid machine carries current in and out of exactly
/// `p·q` slots each.
#[test]
fn every_phase_holds_an_equal_share_of_slots() {
    for (groove_count, phases, pole_pairs) in [(24, 3, 1), (36, 3, 2), (24, 2, 3), (48, 4, 2), (30, 5, 1), (72, 6, 3)] {
        let cfg = config(groove_count, phases, pole_pairs, 1);
        let q = groove_count / (2 * pole_pairs * phases);
        let assignments = compute_winding(&cfg);
        for phase in 0..phases {
            for direction in [Direction::In, Direction::Out] {
                let carrying = assignments
                    .iter()
                    .filter(|a| **a == Some(SlotAssignment { phase, direction }))
                    .count();
                assert_eq!(carrying, pole_pairs * q, "S={groove_count} m={phases} p={pole_pairs} phase {phase} {direction:?}");
            }
        }
    }
}

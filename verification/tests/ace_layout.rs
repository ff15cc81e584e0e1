use miden_logic::ace_layout::{InputCounts, InputKey, InputLayout};

#[test]
fn multi_air_layout_generalizes_over_num_airs() {
    let counts = InputCounts {
        preprocessed_width: 0,
        width: 1,
        aux_width: 1,
        num_aux_boundary: 3,
        num_public: 8,
        num_randomness: 2,
        num_periodic: 0,
        num_quotient_chunks: 1,
    };

    // 3-AIR layout: betas first (instance order), then one selector triple per AIR.
    let layout = InputLayout::new_multi_air(counts, 3);
    let base = layout.index(InputKey::MultiAirBeta(0)).unwrap();
    assert_eq!(layout.index(InputKey::MultiAirBeta(2)), Some(base + 2));
    assert_eq!(layout.index(InputKey::IsFirstAir(0)), Some(base + 3));
    assert_eq!(layout.index(InputKey::IsTransitionAir(2)), Some(base + 3 + 3 * 2 + 2));
    assert_eq!(layout.index(InputKey::MultiAirBeta(3)), None, "AIR index out of range");
    assert_eq!(layout.index(InputKey::IsFirstAir(3)), None, "AIR index out of range");

    // 2-AIR layout keeps the slot positions the MASM verifier writes:
    // betas at base..base+1, selector triples at base+2..base+7.
    let layout2 = InputLayout::new_multi_air(counts, 2);
    let base2 = layout2.index(InputKey::MultiAirBeta(0)).unwrap();
    assert_eq!(layout2.index(InputKey::MultiAirBeta(1)), Some(base2 + 1));
    assert_eq!(layout2.index(InputKey::IsFirstAir(0)), Some(base2 + 2));
    assert_eq!(layout2.index(InputKey::IsTransitionAir(1)), Some(base2 + 7));
}

use miden_logic::ace_layout::{
    build_ace_layout_for_air, input_counts_for_air, AceConfig, Alignment, InputRegion, LayoutBuilder,
    LayoutKind,
};

fn sample_counts() -> InputCounts {
    InputCounts {
        preprocessed_width: 3,
        width: 5,
        aux_width: 2,
        num_aux_boundary: 3,
        num_public: 7,
        num_randomness: 2,
        num_periodic: 1,
        num_quotient_chunks: 2,
    }
}

fn regions(l: &InputLayout) -> Vec<InputRegion> {
    let r = l.regions;
    vec![
        r.public_values,
        r.randomness,
        r.preprocessed_curr,
        r.main_curr,
        r.aux_curr,
        r.quotient_curr,
        r.preprocessed_next,
        r.main_next,
        r.aux_next,
        r.quotient_next,
        r.aux_bus_boundary,
        r.stark_vars,
    ]
}

#[test]
fn alignment_values() {
    assert_eq!(Alignment::Unaligned.value(), 1);
    assert_eq!(Alignment::Word.value(), 2);
    assert_eq!(Alignment::DoubleWord.value(), 4);
    assert_eq!(Alignment::QuadWord.value(), 8);
}

#[test]
fn builder_aligns_before_allocating() {
    let mut b = LayoutBuilder::new();
    let r1 = b.allocate(3, Alignment::Unaligned);
    assert_eq!((r1.offset, r1.width), (0, 3));
    let r2 = b.allocate(2, Alignment::QuadWord);
    assert_eq!((r2.offset, r2.width), (8, 2));
    assert_eq!(b.offset, 10);
    b.align(Alignment::DoubleWord);
    assert_eq!(b.offset, 12);
    b.align(Alignment::DoubleWord);
    assert_eq!(b.offset, 12);
}

#[test]
fn native_layout_is_dense_and_ordered() {
    let l = InputLayout::new(sample_counts());
    let rs = regions(&l);
    assert_eq!(rs[0].offset, 0);
    for pair in rs.windows(2) {
        assert_eq!(pair[0].offset + pair[0].width, pair[1].offset);
    }
    let last = rs[rs.len() - 1];
    assert_eq!(l.total_inputs, last.offset + last.width);
}

#[test]
fn masm_layout_regions_are_aligned_and_ordered() {
    let l = InputLayout::new_masm(sample_counts());
    let rs = regions(&l);
    let aligns = [8, 2, 4, 4, 4, 4, 4, 4, 4, 4, 2, 2];
    for (r, a) in rs.iter().zip(aligns) {
        assert_eq!(r.offset % a, 0);
    }
    for pair in rs.windows(2) {
        assert!(pair[0].offset + pair[0].width <= pair[1].offset);
    }
    let last = rs[rs.len() - 1];
    assert!(last.offset + last.width <= l.total_inputs);
    assert_eq!(l.total_inputs % 2, 0);
}

#[test]
fn single_air_layout_has_no_multi_air_slots() {
    let l = InputLayout::new(sample_counts());
    assert_eq!(l.index(InputKey::MultiAirBeta(0)), None);
    assert!(l.stark.multi_air.is_none());
}

#[test]
fn multi_air_slots_are_distinct() {
    let l = InputLayout::new_masm_multi_air(sample_counts(), 3);
    let mut seen = Vec::new();
    for i in 0..3 {
        for key in [InputKey::MultiAirBeta(i), InputKey::IsFirstAir(i), InputKey::IsLastAir(i), InputKey::IsTransitionAir(i)] {
            let slot = l.index(key).unwrap();
            assert!(slot >= l.regions.stark_vars.offset && slot < l.regions.stark_vars.offset + l.regions.stark_vars.width);
            assert!(!seen.contains(&slot));
            seen.push(slot);
        }
    }
}

#[test]
fn configuration_chooses_the_layout() {
    let counts = input_counts_for_air(3, 5, 2, 3, 7, 2, 1, AceConfig { num_quotient_chunks: 2, layout: LayoutKind::Masm, num_airs: 1 });
    assert_eq!(counts, sample_counts());
    let masm = build_ace_layout_for_air(counts, AceConfig { num_quotient_chunks: 2, layout: LayoutKind::Masm, num_airs: 1 });
    assert_eq!(masm.total_inputs, InputLayout::new_masm(counts).total_inputs);
    let native_multi = build_ace_layout_for_air(counts, AceConfig { num_quotient_chunks: 2, layout: LayoutKind::Native, num_airs: 2 });
    assert_eq!(native_multi.total_inputs, InputLayout::new_multi_air(counts, 2).total_inputs);
}

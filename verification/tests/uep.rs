use dabradio::puncture::{PI_TAIL, P_CODES};
use dabradio::uep::{depunctured_size, depuncture, profile, punctured_size, uep_profiles};

#[test]
fn all_profiles_have_consistent_information_and_allocation_sizes() {
    for p in uep_profiles() {
        // Four mother-code bits are produced per information bit.
        assert_eq!(p.l.iter().sum::<usize>() * 128, 24 * p.bitrate as usize * 4);
        for (&blocks, &pi) in p.l.iter().zip(p.pi.iter()) {
            assert_eq!(blocks == 0, pi.is_none(), "{p:?}");
        }

        // Every standardized short-form allocation rounds to whole CUs
        // with only the 0/4/8 trailing padding bits allowed by Table 15.
        let transmitted = punctured_size(&p);
        let allocation = transmitted.div_ceil(64) * 64;
        assert!(matches!(allocation - transmitted, 0 | 4 | 8), "{p:?}");
    }
}

#[test]
fn bbc_radio_one_profile_matches_table_index_35() {
    // FIG 0/1 short-form index 35: 96 CUs, 128 kbps, UEP 3.
    let p = profile(128, 3).unwrap();
    // This standardized row leaves four padding bits in its 96-CU allocation.
    assert_eq!(punctured_size(&p), 96 * 64 - 4);
    assert_eq!(depunctured_size(&p), 24 * 128 * 4 + 24);
}

#[test]
fn depuncture_consumes_bbc_profile_and_produces_mother_code_size() {
    let p = profile(128, 3).unwrap();
    let input = vec![42; punctured_size(&p)];
    let output = depuncture(&input, &p);
    assert_eq!(output.len(), depunctured_size(&p));
    assert_eq!(output.iter().filter(|&&x| x != 0).count(), input.len());
}

#[test]
fn puncturing_vectors_keep_eight_plus_x_bits() {
    for (i, row) in P_CODES.iter().enumerate() {
        assert_eq!(row.iter().filter(|&&b| b != 0).count(), 9 + i);
    }
    assert_eq!(PI_TAIL.iter().filter(|&&b| b != 0).count(), 12);
}

#[test]
fn profile_lookup_finds_row_or_nothing() {
    let p = profile(32, 5).unwrap();
    assert_eq!(p.l, [3, 4, 17, 0]);
    assert_eq!(p.pi, [Some(4), Some(2), Some(1), None]);
    let p = profile(384, 1).unwrap();
    assert_eq!(p.l, [12, 28, 245, 3]);
    // 384 kbit/s has no level 2 row, 33 kbit/s is no DAB rate.
    assert!(profile(384, 2).is_none());
    assert!(profile(33, 3).is_none());
}

#[test]
fn punctured_size_formula_for_32k_level_5() {
    // 4 * (3 * PI_5 + 4 * PI_3 + 17 * PI_2) + tail = 4 * (3*13 + 4*11 + 17*10) + 12
    let p = profile(32, 5).unwrap();
    assert_eq!(punctured_size(&p), 4 * (3 * 13 + 4 * 11 + 17 * 10) + 12);
    assert_eq!(depunctured_size(&p), 24 * 128 + 24);
}

#[test]
fn depuncture_places_soft_bits_in_order_and_erases_the_rest() {
    let p = profile(32, 5).unwrap();
    let n = punctured_size(&p);
    let input: Vec<i8> = (0..n).map(|i| (i % 100) as i8 + 1).collect();
    let out = depuncture(&input, &p);
    assert_eq!(out.len(), depunctured_size(&p));
    // First region uses PI_5 = 1100 1100 1100 1000 1100 1000 1100 1000.
    assert_eq!(&out[..8], &[1, 2, 0, 0, 3, 4, 0, 0]);
    // Puncturing the output again gives the input back.
    let mut mask = Vec::new();
    for r in 0..4 {
        if p.l[r] > 0 {
            for _ in 0..4 * p.l[r] {
                mask.extend_from_slice(&P_CODES[p.pi[r].unwrap()]);
            }
        }
    }
    mask.extend_from_slice(&PI_TAIL);
    let kept: Vec<i8> = out.iter().zip(mask.iter()).filter(|(_, &m)| m != 0).map(|(&x, _)| x).collect();
    assert_eq!(kept, input);
    assert!(out.iter().zip(mask.iter()).all(|(&x, &m)| m != 0 || x == 0));
}

#[test]
fn depuncture_erases_missing_soft_bits() {
    let p = profile(32, 5).unwrap();
    let out = depuncture(&[5, 6, 7], &p);
    assert_eq!(out.len(), depunctured_size(&p));
    assert_eq!(&out[..8], &[5, 6, 0, 0, 7, 0, 0, 0]);
    assert!(out[8..].iter().all(|&x| x == 0));
}

#[test]
fn stronger_protection_transmits_more_bits() {
    let profiles = uep_profiles();
    for a in profiles.iter() {
        for b in profiles.iter() {
            if a.bitrate == b.bitrate && a.level < b.level {
                assert!(punctured_size(a) > punctured_size(b), "{a:?} {b:?}");
            }
        }
    }
    assert_eq!(punctured_size(&profile(128, 3).unwrap()), 6140);
}

#[test]
fn depuncture_ignores_surplus_input() {
    let p = profile(48, 2).unwrap();
    let n = punctured_size(&p);
    let input: Vec<i8> = (0..n).map(|i| (i % 50) as i8 - 25).collect();
    let mut longer = input.clone();
    longer.extend_from_slice(&[9, 9, 9]);
    assert_eq!(depuncture(&longer, &p), depuncture(&input, &p));
}

use xoodoo::xoodoo_hash::xoodoo_plane::XoodooPlane;
use xoodoo::xoodoo_hash::xoodoo_state::{XoodooState, XoodooStateFull, ROUND_CONSTANTS};

fn words_of(plane: &XoodooPlane) -> Vec<u32> {
    plane
        .get_lanes()
        .chunks(4)
        .map(|c| u32::from_le_bytes([c[0], c[1], c[2], c[3]]))
        .collect()
}

fn planes_of(state: &XoodooStateFull) -> Vec<Vec<u32>> {
    (0..3).map(|y| words_of(&state.get_plane(y))).collect()
}

/// The state of four lanes per plane read from the bytes 1, 2, ..., 48.
fn counting_state() -> XoodooStateFull {
    let data: Vec<u8> = (1..=48).collect();
    XoodooStateFull::new_from_bytes(&data, Some(4))
}

#[test]
fn round_constants_table() {
    assert_eq!(
        ROUND_CONSTANTS,
        [0x58, 0x38, 0x3C0, 0xD0, 0x120, 0x14, 0x60, 0x2C, 0x380, 0xF0, 0x1A0, 0x12]
    );
}

#[test]
fn initialize_is_all_zero() {
    for n in 1..=4usize {
        let state = XoodooStateFull::initialize(Some(n));
        assert_eq!(state.get_state(), vec![0u8; 12 * n]);
        for y in 0..3 {
            assert_eq!(state.get_plane(y).get_num_lanes(), n);
        }
    }
}

#[test]
fn initialize_default_width_is_four() {
    let state = XoodooStateFull::initialize(None);
    assert_eq!(state.get_state(), vec![0u8; 48]);
    assert_eq!(state.get_plane(0).get_num_lanes(), 4);
}

#[test]
fn new_from_bytes_default_width_is_four() {
    let data: Vec<u8> = (1..=48).collect();
    let state = XoodooStateFull::new_from_bytes(&data, None);
    assert_eq!(state.get_plane(2).get_num_lanes(), 4);
    assert_eq!(state.get_state(), data);
}

#[test]
fn new_from_bytes_splits_into_planes() {
    let state = counting_state();
    assert_eq!(
        planes_of(&state),
        vec![
            vec![0x0403_0201, 0x0807_0605, 0x0C0B_0A09, 0x100F_0E0D],
            vec![0x1413_1211, 0x1817_1615, 0x1C1B_1A19, 0x201F_1E1D],
            vec![0x2423_2221, 0x2827_2625, 0x2C2B_2A29, 0x302F_2E2D],
        ]
    );
}

#[test]
fn new_from_four_bytes_one_lane_per_plane() {
    let state = XoodooStateFull::new_from_bytes(&[0x01, 0x00, 0x00, 0x00], Some(1));
    assert_eq!(planes_of(&state), vec![vec![1], vec![0], vec![0]]);
    assert_eq!(
        state.get_state(),
        vec![0x01, 0x00, 0x00, 0x00, 0x00, 0x00, 0x00, 0x00, 0x00, 0x00, 0x00, 0x00]
    );
}

#[test]
fn new_from_bytes_last_range_is_truncated() {
    // 21 bytes at width 4: plane 0 is full, plane 1 has five bytes, plane 2 none
    let data: Vec<u8> = (1..=21).collect();
    let state = XoodooStateFull::new_from_bytes(&data, Some(4));
    assert_eq!(
        planes_of(&state),
        vec![
            vec![0x0403_0201, 0x0807_0605, 0x0C0B_0A09, 0x100F_0E0D],
            vec![0x1413_1211, 0x0000_0015, 0, 0],
            vec![0, 0, 0, 0],
        ]
    );
}

#[test]
fn new_from_empty_is_all_zero() {
    for n in 1..=4usize {
        let state = XoodooStateFull::new_from_bytes(&[], Some(n));
        assert_eq!(state.get_state(), vec![0u8; 12 * n]);
    }
}

#[test]
fn bytes_round_trip_zero_padded() {
    for n in 1..=4usize {
        for len in 0..=12 * n {
            let data: Vec<u8> = (0..len).map(|k| 0xC0 ^ (k as u8).wrapping_mul(7)).collect();
            let state = XoodooStateFull::new_from_bytes(&data, Some(n));
            let mut expected = data.clone();
            expected.resize(12 * n, 0);
            assert_eq!(state.get_state(), expected, "n {n} len {len}");
        }
    }
}

#[test]
fn get_plane_is_a_copy() {
    let state = counting_state();
    let mut plane = state.get_plane(1);
    plane.complement();
    assert_eq!(words_of(&state.get_plane(1)), vec![0x1413_1211, 0x1817_1615, 0x1C1B_1A19, 0x201F_1E1D]);
}

#[test]
fn xor_state_absorbs() {
    let mut state = counting_state();
    let data: Vec<u8> = (1..=48).map(|b: u8| b ^ 0xFF).collect();
    state.xor_state(&data);
    assert_eq!(state.get_state(), vec![0xFFu8; 48]);
}

#[test]
fn xor_state_short_input_is_zero_extended() {
    let mut state = counting_state();
    state.xor_state(&[0x01, 0x02, 0x03, 0x04, 0x05]);
    let mut expected: Vec<u8> = (1..=48).collect();
    for k in 0..5 {
        expected[k] = 0;
    }
    assert_eq!(state.get_state(), expected);

    let mut state = counting_state();
    state.xor_state(&[]);
    assert_eq!(state.get_state(), (1..=48).collect::<Vec<u8>>());
}

#[test]
fn xor_state_twice_restores() {
    for n in 1..=4usize {
        let start: Vec<u8> = (0..12 * n).map(|k| (k as u8).wrapping_mul(13) ^ 0x5A).collect();
        for len in [0, 1, 3, 4, 5, 4 * n, 4 * n + 1, 8 * n, 12 * n - 1, 12 * n] {
            let data: Vec<u8> = (0..len).map(|k| 0xF1u8.wrapping_add(k as u8)).collect();
            let mut state = XoodooStateFull::new_from_bytes(&start, Some(n));
            state.xor_state(&data);
            state.xor_state(&data);
            assert_eq!(state.get_state(), start, "n {n} len {len}");
        }
    }
}

#[test]
fn theta_step_known_answer() {
    let mut state = counting_state();
    state.theta_step();
    assert_eq!(
        planes_of(&state),
        vec![
            vec![0xCC6B_85AE, 0x42ED_0D2F, 0xC760_82A3, 0x59E6_0624],
            vec![0xDC7B_95BE, 0x52FD_1D3F, 0xD770_92B3, 0x69F6_1634],
            vec![0xEC4B_A58E, 0x62CD_2D0F, 0xE740_A283, 0x79C6_2604],
        ]
    );
}

#[test]
fn theta_step_on_zero_is_zero() {
    let mut state = XoodooStateFull::initialize(Some(3));
    state.theta_step();
    assert_eq!(state.get_state(), vec![0u8; 36]);
}

#[test]
fn rho_west_step_known_answer() {
    let mut state = counting_state();
    state.rho_west_step();
    assert_eq!(
        planes_of(&state),
        vec![
            vec![0x0403_0201, 0x0807_0605, 0x0C0B_0A09, 0x100F_0E0D],
            vec![0x201F_1E1D, 0x1413_1211, 0x1817_1615, 0x1C1B_1A19],
            vec![0x1911_0921, 0x3931_2941, 0x5951_4961, 0x7971_6981],
        ]
    );
}

#[test]
fn iota_step_known_answer() {
    let mut state = counting_state();
    state.iota_step(3);
    assert_eq!(
        planes_of(&state),
        vec![
            vec![0x0403_02D1, 0x0807_0605, 0x0C0B_0A09, 0x100F_0E0D],
            vec![0x1413_1211, 0x1817_1615, 0x1C1B_1A19, 0x201F_1E1D],
            vec![0x2423_2221, 0x2827_2625, 0x2C2B_2A29, 0x302F_2E2D],
        ]
    );
}

#[test]
fn iota_step_each_constant() {
    for i in 0..12 {
        let mut state = XoodooStateFull::initialize(Some(2));
        state.iota_step(i);
        assert_eq!(planes_of(&state), vec![vec![ROUND_CONSTANTS[i], 0], vec![0, 0], vec![0, 0]]);
    }
}

#[test]
fn chi_step_known_answer() {
    let mut state = counting_state();
    state.chi_step();
    assert_eq!(
        planes_of(&state),
        vec![
            vec![0x2423_2221, 0x2827_2625, 0x2C2B_2A29, 0x002F_2E2D],
            vec![0x1413_1211, 0x1817_1615, 0x1C1B_1A19, 0x201F_1E1D],
            vec![0x3433_3231, 0x3837_3635, 0x3C3B_3A39, 0x103F_3E3D],
        ]
    );
}

#[test]
fn chi_step_uses_planes_as_they_were() {
    // plane 0 = a, plane 1 = 0, plane 2 = all ones:
    // plane 0 gets a ^ (!0 & ones) = !a, plane 1 gets 0 ^ (0 & a) = 0,
    // plane 2 gets ones ^ (!a & 0) = ones
    let mut data = vec![0x0Fu8, 0xF0, 0x55, 0xAA];
    data.extend_from_slice(&[0, 0, 0, 0]);
    data.extend_from_slice(&[0xFF, 0xFF, 0xFF, 0xFF]);
    let mut state = XoodooStateFull::new_from_bytes(&data, Some(1));
    state.chi_step();
    assert_eq!(planes_of(&state), vec![vec![0x55AA_0FF0], vec![0], vec![0xFFFF_FFFF]]);
}

#[test]
fn rho_east_step_known_answer() {
    let mut state = counting_state();
    state.rho_east_step();
    assert_eq!(
        planes_of(&state),
        vec![
            vec![0x0403_0201, 0x0807_0605, 0x0C0B_0A09, 0x100F_0E0D],
            vec![0x2826_2422, 0x302E_2C2A, 0x3836_3432, 0x403E_3C3A],
            vec![0x2B2A_292C, 0x2F2E_2D30, 0x2322_2124, 0x2726_2528],
        ]
    );
}

#[test]
fn round_zero_on_zero_state() {
    let mut state = XoodooStateFull::initialize(Some(4));
    state.round(0);
    assert_eq!(
        planes_of(&state),
        vec![vec![0x0000_0058, 0, 0, 0], vec![0x0000_00B0, 0, 0, 0], vec![0, 0, 0, 0]]
    );
}

#[test]
fn round_known_answer() {
    let mut state = counting_state();
    state.round(5);
    assert_eq!(
        planes_of(&state),
        vec![
            vec![0xD863_E4F8, 0x63ED_672F, 0xC260_80A3, 0x79E6_2768],
            vec![0xD36B_2D59, 0xBDFD_232F, 0x213B_3B7D, 0x3F6D_2D27],
            vec![0x8902_2615, 0x20B3_5DB7, 0xB865_667C, 0x7AEB_86F5],
        ]
    );
}

#[test]
fn round_is_the_five_steps_in_order() {
    for n in 1..=4usize {
        let data: Vec<u8> = (0..12 * n).map(|k| 0x10 + k as u8).collect();
        for i in 0..12 {
            let mut whole = XoodooStateFull::new_from_bytes(&data, Some(n));
            whole.round(i);
            let mut steps = XoodooStateFull::new_from_bytes(&data, Some(n));
            steps.theta_step();
            steps.rho_west_step();
            steps.iota_step(i);
            steps.chi_step();
            steps.rho_east_step();
            assert_eq!(whole.get_state(), steps.get_state());
        }
    }
}

#[test]
fn round_zero_narrower_widths() {
    let data: Vec<u8> = (0x10..0x10 + 12).collect();
    let mut state = XoodooStateFull::new_from_bytes(&data, Some(1));
    state.round(0);
    assert_eq!(planes_of(&state), vec![vec![0xF3FE_F7A0], vec![0xE30D_4AA0], vec![0xEAE3_ACF5]]);

    let data: Vec<u8> = (0x10..0x10 + 24).collect();
    let mut state = XoodooStateFull::new_from_bytes(&data, Some(2));
    state.round(0);
    assert_eq!(
        planes_of(&state),
        vec![
            vec![0x79F6_FF2A, 0xF05A_72DA],
            vec![0xD32B_7FA3, 0x8B39_2F99],
            vec![0x7A72_BCE4, 0xD3DB_454D],
        ]
    );

    let data: Vec<u8> = (0x10..0x10 + 36).collect();
    let mut state = XoodooStateFull::new_from_bytes(&data, Some(3));
    state.round(0);
    assert_eq!(
        planes_of(&state),
        vec![
            vec![0x75C8_E106, 0x7A98_B858, 0x4E1F_1E4D],
            vec![0xE747_43C7, 0x3E08_1E2C, 0x116F_3842],
            vec![0x070D_1319, 0x072E_91B8, 0x7852_ACC6],
        ]
    );
}

#[test]
fn twelve_rounds_on_zero_state() {
    let mut state = XoodooStateFull::initialize(Some(4));
    for i in 0..12 {
        state.round(i);
    }
    assert_eq!(
        planes_of(&state),
        vec![
            vec![0x89D5_D88D, 0xA963_FCBF, 0x1B23_2D19, 0xFFA5_A014],
            vec![0x36B1_8106, 0xAFC7_C1FE, 0xAEE5_7CBE, 0xA775_40BD],
            vec![0x2E86_E870, 0xFEF5_B7C9, 0x8B4F_ADF2, 0x5E4F_4062],
        ]
    );
}

#[test]
fn get_state_is_plane_after_plane() {
    let state = counting_state();
    let mut expected = state.get_plane(0).get_lanes();
    expected.extend(state.get_plane(1).get_lanes());
    expected.extend(state.get_plane(2).get_lanes());
    assert_eq!(state.get_state(), expected);
    assert_eq!(state.get_state().len(), 48);
}

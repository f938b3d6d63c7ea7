use my_channel::mpsc::state::{
    decode_state, encode_state, State, CAPACITY_MASK, INIT_STATE, OPEN_MASK,
};

#[test]
fn masks_split_the_word() {
    assert_eq!(OPEN_MASK, 1usize << (usize::BITS - 1));
    assert_eq!(CAPACITY_MASK, usize::MAX >> 1);
    assert_eq!(INIT_STATE, OPEN_MASK);
}

#[test]
fn initial_word_is_open_and_empty() {
    let state = decode_state(INIT_STATE);
    assert!(state.is_open);
    assert_eq!(state.num_msg, 0);
}

#[test]
fn encoding_sets_the_highest_bit_of_an_open_channel() {
    assert_eq!(encode_state(&State { is_open: true, num_msg: 5 }), OPEN_MASK + 5);
    assert_eq!(encode_state(&State { is_open: false, num_msg: 5 }), 5);
    assert_eq!(encode_state(&State { is_open: true, num_msg: CAPACITY_MASK }), usize::MAX);
}

#[test]
fn decoding_inverts_encoding() {
    for num_msg in [0, 1, 17, CAPACITY_MASK] {
        for is_open in [false, true] {
            let state = decode_state(encode_state(&State { is_open, num_msg }));
            assert_eq!(state.is_open, is_open);
            assert_eq!(state.num_msg, num_msg);
        }
    }
}

#[test]
fn a_count_in_the_highest_bit_is_read_as_open() {
    let state = decode_state(encode_state(&State { is_open: false, num_msg: OPEN_MASK + 3 }));
    assert!(state.is_open);
    assert_eq!(state.num_msg, 3);
}

#[test]
fn encoding_inverts_decoding() {
    for word in [0, 1, CAPACITY_MASK, OPEN_MASK, OPEN_MASK + 9, usize::MAX] {
        assert_eq!(encode_state(&decode_state(word)), word);
    }
}

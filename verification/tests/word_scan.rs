use fixed_pool::lowest_clear_bit;
use fixed_pool::padding_word;

#[test]
fn lowest_clear_bit_examples() {
    assert_eq!(lowest_clear_bit(0), 0);
    assert_eq!(lowest_clear_bit(1), 1);
    assert_eq!(lowest_clear_bit(0b0111), 3);
    assert_eq!(lowest_clear_bit(0b1011), 2);
    assert_eq!(lowest_clear_bit(u64::MAX), 64);
    assert_eq!(lowest_clear_bit(u64::MAX >> 1), 63);
    assert_eq!(lowest_clear_bit(u64::MAX - 1), 0);
}

#[test]
fn padding_word_examples() {
    // No slots: every bit of the single word is padding.
    assert_eq!(padding_word(0), u64::MAX);
    // A multiple of the word width leaves no padding in the final word.
    assert_eq!(padding_word(64), 0);
    assert_eq!(padding_word(128), 0);
    // Otherwise the bits at and above `count % 64` are padding.
    assert_eq!(padding_word(3), u64::MAX << 3);
    assert_eq!(padding_word(1), u64::MAX << 1);
    assert_eq!(padding_word(130), u64::MAX << 2);
    assert_eq!(padding_word(63), u64::MAX << 63);
}

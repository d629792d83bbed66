use yscale::store::{decode_words, encode_words};
use yscale::text::bracketed_db_readings;

#[test]
fn words_round_trip() {
    let words: Vec<u64> = vec![0, 1, 0x0102_0304_0506_0708, u64::MAX, (0.5f64).to_bits()];
    let bytes = encode_words(&words);
    assert_eq!(bytes.len(), 40);
    assert_eq!(&bytes[16..24], &[8, 7, 6, 5, 4, 3, 2, 1]);
    assert_eq!(decode_words(&bytes), words);
    assert_eq!(f64::from_bits(decode_words(&bytes)[4]), 0.5);
}

#[test]
fn partial_word_is_ignored() {
    let mut bytes = encode_words(&vec![7u64, 9]);
    bytes.extend_from_slice(&[1, 2, 3]);
    assert_eq!(decode_words(&bytes), vec![7u64, 9]);
    assert!(decode_words(&[1, 2, 3, 4, 5, 6, 7]).is_empty());
    assert!(encode_words(&Vec::new()).is_empty());
}

#[test]
fn mixer_readout_levels() {
    let out = "Simple mixer control 'Digital',0\n  Front Left: Playback 143 [69%] [-32.50dB]\n  Front Right: Playback 143 [69%] [ -32.50 dB ]\n";
    assert_eq!(bracketed_db_readings(out), vec!["-32.50", "-32.50"]);
    assert_eq!(bracketed_db_readings("[0dB]"), vec!["0"]);
    assert!(bracketed_db_readings("no levels [50%]").is_empty());
    assert_eq!(bracketed_db_readings("dB"), vec![""]);
    assert_eq!(bracketed_db_readings("x] 3dB [y"), vec!["3"]);
}

use wordle::letter::ALPHABET_SIZE;
use wordle::word::{rank_of, same_word, WORD_SIZE};
use wordle::{Dictionary, Letter};

fn word(text: &str) -> [Letter; 5] {
    let bytes = text.as_bytes();
    assert_eq!(bytes.len(), 5);
    let mut word = [Letter::A; 5];
    for i in 0..5 {
        word[i] = Letter::from_ascii_char(bytes[i]).unwrap();
    }
    word
}

#[test]
fn upper_case_bytes_are_letters() {
    assert_eq!(Letter::from_ascii_char(b'A'), Some(Letter::A));
    assert_eq!(Letter::from_ascii_char(b'B'), Some(Letter::B));
    assert_eq!(Letter::from_ascii_char(b'M'), Some(Letter::M));
    assert_eq!(Letter::from_ascii_char(b'N'), Some(Letter::N));
    assert_eq!(Letter::from_ascii_char(b'Y'), Some(Letter::Y));
    assert_eq!(Letter::from_ascii_char(b'Z'), Some(Letter::Z));
}

#[test]
fn lower_case_bytes_are_the_same_letters() {
    for byte in b'A'..=b'Z' {
        let upper = Letter::from_ascii_char(byte);
        let lower = Letter::from_ascii_char(byte + 32);
        assert!(upper.is_some());
        assert_eq!(upper, lower);
    }
    assert_eq!(Letter::from_ascii_char(b'q'), Some(Letter::Q));
}

#[test]
fn other_bytes_are_no_letters() {
    assert_eq!(Letter::from_ascii_char(b'@'), None);
    assert_eq!(Letter::from_ascii_char(b'['), None);
    assert_eq!(Letter::from_ascii_char(b'`'), None);
    assert_eq!(Letter::from_ascii_char(b'{'), None);
    assert_eq!(Letter::from_ascii_char(b'0'), None);
    assert_eq!(Letter::from_ascii_char(b' '), None);
    assert_eq!(Letter::from_ascii_char(b'\n'), None);
    assert_eq!(Letter::from_ascii_char(0), None);
    assert_eq!(Letter::from_ascii_char(0xc1), None);
    assert_eq!(Letter::from_ascii_char(0xe1), None);
    assert_eq!(Letter::from_ascii_char(255), None);
}

#[test]
fn exactly_fifty_two_bytes_are_letters() {
    let mut count = 0;
    for byte in 0..=255u8 {
        if Letter::from_ascii_char(byte).is_some() {
            count += 1;
        }
    }
    assert_eq!(count, 52);
}

#[test]
fn every_letter_has_its_own_index() {
    assert_eq!(ALPHABET_SIZE, 26);
    assert_eq!(Letter::A.index(), 0);
    assert_eq!(Letter::E.index(), 4);
    assert_eq!(Letter::L.index(), 11);
    assert_eq!(Letter::Z.index(), 25);
    for byte in b'A'..=b'Z' {
        let letter = Letter::from_ascii_char(byte).unwrap();
        assert_eq!(letter.index(), (byte - b'A') as usize);
    }
}

#[test]
fn letters_are_ordered_alphabetically() {
    assert!(Letter::A < Letter::B);
    assert!(Letter::Y < Letter::Z);
    assert!(Letter::A < Letter::Z);
    assert_eq!(Letter::K, Letter::K);
    assert_ne!(Letter::K, Letter::L);
}

#[test]
fn rank_reads_a_word_in_base_twenty_six() {
    assert_eq!(WORD_SIZE, 5);
    assert_eq!(rank_of(&word("AAAAA")), 0);
    assert_eq!(rank_of(&word("AAAAB")), 1);
    assert_eq!(rank_of(&word("AAABA")), 26);
    assert_eq!(rank_of(&word("BAAAA")), 456_976);
    assert_eq!(rank_of(&word("APPLE")), 274_070);
    assert_eq!(rank_of(&word("ZZZZZ")), 11_881_375);
}

#[test]
fn rank_follows_the_alphabetical_order() {
    let words = ["APPLE", "APPLY", "GRAPE", "TABLE", "TABLO", "ZEBRA"];
    for i in 0..words.len() {
        for j in 0..words.len() {
            let a = word(words[i]);
            let b = word(words[j]);
            assert_eq!(rank_of(&a) < rank_of(&b), a < b);
            assert_eq!(rank_of(&a) < rank_of(&b), words[i] < words[j]);
        }
    }
}

#[test]
fn same_word_compares_all_five_letters() {
    assert!(same_word(&word("APPLE"), &word("apple")));
    assert!(!same_word(&word("APPLE"), &word("APPLY")));
    assert!(!same_word(&word("APPLE"), &word("BPPLE")));
    assert!(!same_word(&word("APPLE"), &word("APELP")));
}

#[test]
fn dictionary_puts_the_words_in_order() {
    let dictionary = Dictionary::new(vec![word("TABLE"), word("APPLE"), word("GRAPE")]);
    assert_eq!(dictionary.len(), 3);
    assert_eq!(dictionary.word(0), word("APPLE"));
    assert_eq!(dictionary.word(1), word("GRAPE"));
    assert_eq!(dictionary.word(2), word("TABLE"));
}

#[test]
fn dictionary_keeps_repeated_words() {
    let dictionary = Dictionary::new(vec![
        word("TABLE"),
        word("APPLE"),
        word("TABLE"),
        word("APPLE"),
        word("GRAPE"),
    ]);
    assert_eq!(dictionary.len(), 5);
    assert_eq!(dictionary.word(0), word("APPLE"));
    assert_eq!(dictionary.word(1), word("APPLE"));
    assert_eq!(dictionary.word(2), word("GRAPE"));
    assert_eq!(dictionary.word(3), word("TABLE"));
    assert_eq!(dictionary.word(4), word("TABLE"));
}

#[test]
fn dictionary_of_nothing_holds_nothing() {
    let dictionary = Dictionary::new(Vec::new());
    assert_eq!(dictionary.len(), 0);
    assert_eq!(dictionary.find(&word("APPLE")), None);
    assert!(!dictionary.contains(&word("APPLE")));
}

#[test]
fn dictionary_finds_every_word_it_holds() {
    let texts = ["MANGO", "TABLE", "APPLE", "GRAPE", "LEMON", "PEACH", "BERRY"];
    let dictionary = Dictionary::new(texts.iter().map(|t| word(t)).collect());
    for text in texts {
        let place = dictionary.find(&word(text)).unwrap();
        assert_eq!(dictionary.word(place), word(text));
        assert!(dictionary.contains(&word(text)));
    }
    assert_eq!(dictionary.find(&word("APPLE")), Some(0));
    assert_eq!(dictionary.find(&word("BERRY")), Some(1));
    assert_eq!(dictionary.find(&word("TABLE")), Some(6));
}

#[test]
fn dictionary_finds_no_word_it_lacks() {
    let texts = ["MANGO", "TABLE", "APPLE", "GRAPE", "LEMON", "PEACH", "BERRY"];
    let dictionary = Dictionary::new(texts.iter().map(|t| word(t)).collect());
    for text in ["AAAAA", "APPLY", "GRAPH", "MELON", "TABLO", "ZZZZZ"] {
        assert_eq!(dictionary.find(&word(text)), None);
        assert!(!dictionary.contains(&word(text)));
    }
}

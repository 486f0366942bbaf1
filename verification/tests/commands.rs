use ballotchain::command::{lacks_candidate_id, parse_command, Command};

fn read(line: &str) -> Option<Command> {
    if lacks_candidate_id(line) {
        None
    } else {
        Some(parse_command(line))
    }
}

#[test]
fn keywords_with_ids() {
    assert_eq!(read("ADAY_OYUNU_GOSTER 5"), Some(Command::ShowCandidateVotes(Some(5))));
    assert_eq!(read("ADAY_BILGI_GOSTER 12"), Some(Command::ShowCandidateInfo(Some(12))));
    assert_eq!(read("OY_VER 1"), Some(Command::Vote(Some(1))));
}

#[test]
fn keywords_without_ids() {
    assert_eq!(read("BUTUN_ADAYLARI_GOSTER"), Some(Command::ShowAllCandidates));
    assert_eq!(read("ILK_BAGLANTI_KUR"), Some(Command::OpenConnection));
    assert_eq!(read("ILK_BAGLANTI_BILGI_GONDER"), Some(Command::SendChain));
    assert_eq!(read("BUTUN_ADAYLARI_GOSTER 3 4"), Some(Command::ShowAllCandidates));
}

#[test]
fn empty_and_unknown_lines() {
    assert_eq!(read(""), Some(Command::Empty));
    assert_eq!(read("   \t "), Some(Command::Empty));
    assert_eq!(read("MERHABA 1"), Some(Command::Unknown));
    assert_eq!(read("oy_ver 1"), Some(Command::Unknown));
    assert_eq!(read("OY_VERX 1"), Some(Command::Unknown));
}

#[test]
fn missing_id_is_an_error() {
    assert_eq!(read("OY_VER"), None);
    assert_eq!(read("ADAY_OYUNU_GOSTER   "), None);
    assert_eq!(read("ADAY_BILGI_GOSTER"), None);
}

#[test]
fn ids_parse_like_str_parse() {
    for token in ["0", "7", "+7", "007", "4294967295", "4294967296", "-1", "+", "", "1a", "abc", "99999999999999999999"] {
        let line = format!("OY_VER {}", token);
        let expected = if token.is_empty() {
            None
        } else {
            Some(Command::Vote(token.parse::<u32>().ok()))
        };
        assert_eq!(read(&line), expected, "token {:?}", token);
    }
}

#[test]
fn words_split_on_unicode_white_space() {
    assert_eq!(read("  OY_VER\u{00a0}\u{3000}8  extra"), Some(Command::Vote(Some(8))));
    assert_eq!(read("\u{2009}OY_VER\t9\r\n"), Some(Command::Vote(Some(9))));
    assert_eq!(read("OY_VER\u{0b}3"), Some(Command::Vote(Some(3))));
    // a non-space letter joins the word
    assert_eq!(read("OY_VER\u{00e7}3"), Some(Command::Unknown));
}

#[test]
fn split_matches_split_whitespace() {
    let lines = ["a b", " OY_VER   12 ", "\u{85}OY_VER\u{1680}4", "OY_VER\u{200b}4"];
    for line in lines {
        let words: Vec<&str> = line.split_whitespace().collect();
        let got = read(line);
        if words.first() == Some(&"OY_VER") {
            match words.get(1) {
                Some(w) => assert_eq!(got, Some(Command::Vote(w.parse::<u32>().ok()))),
                None => assert_eq!(got, None),
            }
        } else {
            assert_eq!(got, Some(Command::Unknown));
        }
    }
}

#[test]
fn rendered_vote_line_reads_back() {
    for n in [0u32, 1, 9, 10, 123, 65_536, u32::MAX] {
        assert_eq!(read(&format!("OY_VER {}", n)), Some(Command::Vote(Some(n))));
    }
}

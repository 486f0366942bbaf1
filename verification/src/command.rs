//! The commands a node reads, one per line: a keyword, then, for some, a candidate id.

use vstd::prelude::*;

use crate::text::{decimal, digit_char};

verus! {

/// A command read from one line.
#[derive(Debug, Clone, Copy, PartialEq, Eq, Structural)]
pub enum Command {
    /// `ADAY_OYUNU_GOSTER id`: show the number of votes for a candidate.
    ShowCandidateVotes(Option<u32>),
    /// `ADAY_BILGI_GOSTER id`: show a candidate.
    ShowCandidateInfo(Option<u32>),
    /// `BUTUN_ADAYLARI_GOSTER`: show every candidate.
    ShowAllCandidates,
    /// `OY_VER id`: cast a vote for a candidate.
    Vote(Option<u32>),
    /// `ILK_BAGLANTI_KUR`: does nothing.
    OpenConnection,
    /// `ILK_BAGLANTI_BILGI_GONDER`: send the whole chain to the peers.
    SendChain,
    /// A line with no word on it.
    Empty,
    /// Any other first word.
    Unknown,
}

/// Why a line is not a command.
#[derive(Debug, PartialEq, Eq, Structural)]
pub enum CommandError {
    /// The keyword asks for a candidate id and the line has no second word.
    MissingCandidateId,
}

/// Whether `c` is white space: it has the Unicode `White_Space` property.
pub open spec fn is_space(c: char) -> bool {
    let v = c as u32;
    ||| 0x09 <= v <= 0x0d
    ||| v == 0x20
    ||| v == 0x85
    ||| v == 0xa0
    ||| v == 0x1680
    ||| 0x2000 <= v <= 0x200a
    ||| v == 0x2028
    ||| v == 0x2029
    ||| v == 0x202f
    ||| v == 0x205f
    ||| v == 0x3000
}

/// The first position from `i` on that holds no white space (or the end of `s`).
pub open spec fn skip_space(s: Seq<char>, i: int) -> int
    decreases s.len() - i,
{
    if i < 0 || i >= s.len() {
        i
    } else if is_space(s[i]) {
        skip_space(s, i + 1)
    } else {
        i
    }
}

/// The first position from `i` on that holds white space (or the end of `s`).
pub open spec fn word_end(s: Seq<char>, i: int) -> int
    decreases s.len() - i,
{
    if i < 0 || i >= s.len() {
        i
    } else if is_space(s[i]) {
        i
    } else {
        word_end(s, i + 1)
    }
}

/// The first word of `s` from position `i` on, words being the maximal runs of characters
/// that are not white space.
pub open spec fn word_from(s: Seq<char>, i: int) -> Option<Seq<char>> {
    let a = skip_space(s, i);
    if a >= s.len() {
        None
    } else {
        Some(s.subrange(a, word_end(s, a)))
    }
}

/// The first word of `s`.
pub open spec fn first_word(s: Seq<char>) -> Option<Seq<char>> {
    word_from(s, 0)
}

/// The second word of `s`.
pub open spec fn second_word(s: Seq<char>) -> Option<Seq<char>> {
    word_from(s, word_end(s, skip_space(s, 0)))
}

/// Whether `c` is one of the digits `0` to `9`.
pub open spec fn is_digit(c: char) -> bool {
    0x30 <= (c as u32) <= 0x39
}

/// The number that a string of decimal digits denotes.
pub open spec fn digits_value(s: Seq<char>) -> nat
    decreases s.len(),
{
    if s.len() == 0 {
        0
    } else {
        digits_value(s.drop_last()) * 10 + ((s.last() as u32) - 0x30) as nat
    }
}

/// `t` without a leading `+`.
pub open spec fn unsigned_part(t: Seq<char>) -> Seq<char> {
    if t.len() > 0 && t[0] == '+' {
        t.drop_first()
    } else {
        t
    }
}

/// Whether every character of `d` is a decimal digit.
pub open spec fn all_digits(d: Seq<char>) -> bool {
    forall|k: int| 0 <= k < d.len() ==> is_digit(#[trigger] d[k])
}

/// What `str::parse::<u32>` gives for `t`: an optional `+`, then one or more decimal digits
/// that denote a number no larger than `u32::MAX`; anything else is refused.
pub open spec fn parse_u32(t: Seq<char>) -> Option<u32> {
    let d = unsigned_part(t);
    if d.len() > 0 && all_digits(d) && digits_value(d) <= u32::MAX {
        Some(digits_value(d) as u32)
    } else {
        None
    }
}

/// The id argument of a line: its second word read as a `u32`, or an error where there is none.
pub open spec fn id_argument(s: Seq<char>) -> Result<Option<u32>, CommandError> {
    match second_word(s) {
        Some(w) => Ok(parse_u32(w)),
        None => Err(CommandError::MissingCandidateId),
    }
}

/// The command on the line `s`, chosen by its first word.
pub open spec fn command_of(s: Seq<char>) -> Result<Command, CommandError> {
    match first_word(s) {
        None => Ok(Command::Empty),
        Some(w) => if w == "ADAY_OYUNU_GOSTER"@ {
            match id_argument(s) {
                Ok(id) => Ok(Command::ShowCandidateVotes(id)),
                Err(e) => Err(e),
            }
        } else if w == "ADAY_BILGI_GOSTER"@ {
            match id_argument(s) {
                Ok(id) => Ok(Command::ShowCandidateInfo(id)),
                Err(e) => Err(e),
            }
        } else if w == "BUTUN_ADAYLARI_GOSTER"@ {
            Ok(Command::ShowAllCandidates)
        } else if w == "OY_VER"@ {
            match id_argument(s) {
                Ok(id) => Ok(Command::Vote(id)),
                Err(e) => Err(e),
            }
        } else if w == "ILK_BAGLANTI_KUR"@ {
            Ok(Command::OpenConnection)
        } else if w == "ILK_BAGLANTI_BILGI_GONDER"@ {
            Ok(Command::SendChain)
        } else {
            Ok(Command::Unknown)
        },
    }
}

/// The characters of `s`, in order.
pub fn chars_of(s: &str) -> (r: Vec<char>)
    ensures
        r@ == s@,
{
    broadcast use vstd::string::group_string_axioms;
    let mut r: Vec<char> = Vec::new();
    for c in it: s.chars()
        invariant
            r@ == it.seq().take(it.index()),
    {
        r.push(c);
        assert(r@ =~= it.seq().take(it.index() + 1));
    }
    assert(r@ =~= s@);
    r
}

/// Whether `c` is white space.
pub fn is_space_char(c: char) -> (r: bool)
    ensures
        r == is_space(c),
{
    let v: u32 = c as u32;
    (0x09 <= v && v <= 0x0d) || v == 0x20 || v == 0x85 || v == 0xa0 || v == 0x1680 || (0x2000 <= v
        && v <= 0x200a) || v == 0x2028 || v == 0x2029 || v == 0x202f || v == 0x205f || v == 0x3000
}

/// The first position from `i` on in `s` that holds no white space, or `s.len()`.
fn skip_space_from(s: &Vec<char>, i: usize) -> (r: usize)
    requires
        i <= s@.len(),
    ensures
        r as int == skip_space(s@, i as int),
        i <= r <= s@.len(),
{
    let mut j: usize = i;
    while j < s.len() && is_space_char(s[j])
        invariant
            i <= j <= s@.len(),
            skip_space(s@, j as int) == skip_space(s@, i as int),
        decreases s@.len() - j,
    {
        j = j + 1;
    }
    j
}

/// The first position from `i` on in `s` that holds white space, or `s.len()`.
fn word_end_from(s: &Vec<char>, i: usize) -> (r: usize)
    requires
        i <= s@.len(),
    ensures
        r as int == word_end(s@, i as int),
        i <= r <= s@.len(),
{
    let mut j: usize = i;
    while j < s.len() && !is_space_char(s[j])
        invariant
            i <= j <= s@.len(),
            word_end(s@, j as int) == word_end(s@, i as int),
        decreases s@.len() - j,
    {
        j = j + 1;
    }
    j
}

/// Whether the characters of `s` from `a` to `b` spell `word`.
fn spells(s: &Vec<char>, a: usize, b: usize, word: &str) -> (r: bool)
    requires
        a <= b <= s@.len(),
    ensures
        r == (s@.subrange(a as int, b as int) == word@),
{
    let w = chars_of(word);
    if b - a != w.len() {
        assert(s@.subrange(a as int, b as int).len() != word@.len());
        return false;
    }
    let mut k: usize = 0;
    while k < w.len()
        invariant
            a <= b <= s@.len(),
            b - a == w@.len(),
            w@ == word@,
            k <= w@.len(),
            forall|j: int| 0 <= j < k ==> s@[a + j] == w@[j],
        decreases w@.len() - k,
    {
        if s[a + k] != w[k] {
            assert(s@.subrange(a as int, b as int)[k as int] != w@[k as int]);
            return false;
        }
        k = k + 1;
    }
    assert(s@.subrange(a as int, b as int) =~= w@);
    true
}

/// A prefix of a digit string denotes no more than the whole string.
proof fn lemma_digits_value_prefix(d: Seq<char>, i: int)
    requires
        0 <= i <= d.len(),
    ensures
        digits_value(d.take(i)) <= digits_value(d),
    decreases d.len(),
{
    if i < d.len() {
        assert(d.drop_last().take(i) =~= d.take(i));
        lemma_digits_value_prefix(d.drop_last(), i);
    } else {
        assert(d.take(i) =~= d);
    }
}

/// Reads the characters of `s` from `a` to `b` as `str::parse::<u32>` does.
fn parse_u32_range(s: &Vec<char>, a: usize, b: usize) -> (r: Option<u32>)
    requires
        a <= b <= s@.len(),
    ensures
        r == parse_u32(s@.subrange(a as int, b as int)),
{
    let ghost t = s@.subrange(a as int, b as int);
    let mut start: usize = a;
    if a < b && s[a] == '+' {
        start = a + 1;
    }
    let ghost d = s@.subrange(start as int, b as int);
    assert(d =~= unsigned_part(t));
    if start == b {
        return None;
    }
    let mut value: u64 = 0;
    let mut i: usize = start;
    assert(d.take(0) =~= Seq::<char>::empty());
    while i < b
        invariant
            a <= start <= i <= b <= s@.len(),
            d == s@.subrange(start as int, b as int),
            t == s@.subrange(a as int, b as int),
            d == unsigned_part(t),
            d.len() > 0,
            value <= u32::MAX,
            forall|k: int| 0 <= k < i - start ==> is_digit(#[trigger] d[k]),
            value as nat == digits_value(d.take(i - start)),
        decreases b - i,
    {
        let c = s[i];
        let v: u32 = c as u32;
        assert(d[i - start] == c);
        if v < 0x30 || v > 0x39 {
            assert(!is_digit(d[i - start]));
            return None;
        }
        let next: u64 = value * 10 + (v - 0x30) as u64;
        assert(d.take(i - start + 1).drop_last() =~= d.take(i - start));
        assert(d.take(i - start + 1).last() == c);
        assert(digits_value(d.take(i - start + 1)) == next);
        if next > 0xffff_ffff {
            proof {
                lemma_digits_value_prefix(d, i - start + 1);
            }
            return None;
        }
        value = next;
        i = i + 1;
    }
    assert(d.take(i - start) =~= d);
    Some(value as u32)
}

/// The command on `line`, or why it is none, as `command_of` chooses it.
fn read_command(line: &str) -> (r: Result<Command, CommandError>)
    ensures
        r == command_of(line@),
{
    let s = chars_of(line);
    let a = skip_space_from(&s, 0);
    if a == s.len() {
        return Ok(Command::Empty);
    }
    let b = word_end_from(&s, a);
    let c = skip_space_from(&s, b);
    let id: Result<Option<u32>, CommandError> = if c == s.len() {
        Err(CommandError::MissingCandidateId)
    } else {
        let d = word_end_from(&s, c);
        Ok(parse_u32_range(&s, c, d))
    };
    assert(id == id_argument(line@));
    if spells(&s, a, b, "ADAY_OYUNU_GOSTER") {
        match id {
            Ok(id) => Ok(Command::ShowCandidateVotes(id)),
            Err(e) => Err(e),
        }
    } else if spells(&s, a, b, "ADAY_BILGI_GOSTER") {
        match id {
            Ok(id) => Ok(Command::ShowCandidateInfo(id)),
            Err(e) => Err(e),
        }
    } else if spells(&s, a, b, "BUTUN_ADAYLARI_GOSTER") {
        Ok(Command::ShowAllCandidates)
    } else if spells(&s, a, b, "OY_VER") {
        match id {
            Ok(id) => Ok(Command::Vote(id)),
            Err(e) => Err(e),
        }
    } else if spells(&s, a, b, "ILK_BAGLANTI_KUR") {
        Ok(Command::OpenConnection)
    } else if spells(&s, a, b, "ILK_BAGLANTI_BILGI_GONDER") {
        Ok(Command::SendChain)
    } else {
        Ok(Command::Unknown)
    }
}

/// Whether `line` names a keyword that takes a candidate id but has no second word.
pub fn lacks_candidate_id(line: &str) -> (r: bool)
    ensures
        r == (command_of(line@) is Err),
{
    read_command(line).is_err()
}

/// The command on `line`, as `command_of` chooses it. The line must not lack a candidate id
/// (see `lacks_candidate_id`).
pub fn parse_command(line: &str) -> (r: Command)
    requires
        command_of(line@) is Ok,
    ensures
        command_of(line@) == Ok::<Command, CommandError>(r),
{
    match read_command(line) {
        Ok(command) => command,
        Err(e) => {
            assert(false);
            Command::Unknown
        },
    }
}

/// The decimal rendering of a number has only digits, and denotes that number.
pub proof fn lemma_decimal_digits(n: nat)
    ensures
        decimal(n).len() > 0,
        all_digits(decimal(n)),
        digits_value(decimal(n)) == n,
    decreases n,
{
    let d = n % 10;
    assert((digit_char(d) as u32) == 0x30 + d);
    if n >= 10 {
        lemma_decimal_digits(n / 10);
        let s = decimal(n);
        assert(s.drop_last() =~= decimal(n / 10));
        assert(s.last() == digit_char(d));
        assert(digits_value(s) == digits_value(decimal(n / 10)) * 10 + d);
        assert((n / 10) * 10 + d == n);
        assert forall|k: int| 0 <= k < s.len() implies is_digit(#[trigger] s[k]) by {
            if k < s.len() - 1 {
                assert(s[k] == decimal(n / 10)[k]);
            }
        }
    } else {
        let s = decimal(n);
        assert(s.drop_last() =~= Seq::<char>::empty());
        assert(s.last() == digit_char(d));
        assert(digits_value(s) == digits_value(s.drop_last()) * 10 + d);
    }
}

/// Reading back the decimal rendering of a `u32` gives that `u32`.
pub proof fn lemma_parse_u32_of_decimal(n: u32)
    ensures
        parse_u32(decimal(n as nat)) == Some(n),
{
    lemma_decimal_digits(n as nat);
    let s = decimal(n as nat);
    assert(is_digit(s[0]));
    assert(unsigned_part(s) == s);
}

/// Where the characters from `i` to `j` are not white space and `j` ends the word, the word
/// from `i` ends at `j`.
proof fn lemma_word_end_at(s: Seq<char>, i: int, j: int)
    requires
        0 <= i <= j <= s.len(),
        forall|k: int| i <= k < j ==> !is_space(#[trigger] s[k]),
        j == s.len() || is_space(s[j]),
    ensures
        word_end(s, i) == j,
    decreases j - i,
{
    if i < j {
        lemma_word_end_at(s, i + 1, j);
    }
}

/// Where the characters from `i` to `j` are white space and `j` holds none, skipping white
/// space from `i` stops at `j`.
proof fn lemma_skip_space_at(s: Seq<char>, i: int, j: int)
    requires
        0 <= i <= j <= s.len(),
        forall|k: int| i <= k < j ==> is_space(#[trigger] s[k]),
        j == s.len() || !is_space(s[j]),
    ensures
        skip_space(s, i) == j,
    decreases j - i,
{
    if i < j {
        lemma_skip_space_at(s, i + 1, j);
    }
}

/// Whether `w` is a word: not empty, and free of white space.
pub open spec fn is_word(w: Seq<char>) -> bool {
    w.len() > 0 && forall|k: int| 0 <= k < w.len() ==> !is_space(#[trigger] w[k])
}

/// Two words joined by one space are read back as the first and the second word.
pub proof fn lemma_two_words(a: Seq<char>, b: Seq<char>)
    requires
        is_word(a),
        is_word(b),
    ensures
        first_word(a + seq![' '] + b) == Some(a),
        second_word(a + seq![' '] + b) == Some(b),
{
    let s = a + seq![' '] + b;
    let n = a.len() as int;
    assert(is_space(' '));
    assert(s[n] == ' ');
    assert forall|k: int| 0 <= k < n implies !is_space(#[trigger] s[k]) by {
        assert(s[k] == a[k]);
    }
    assert forall|k: int| n + 1 <= k < s.len() implies !is_space(#[trigger] s[k]) by {
        assert(s[k] == b[k - n - 1]);
    }
    lemma_skip_space_at(s, 0, 0);
    lemma_word_end_at(s, 0, n);
    lemma_skip_space_at(s, n, n + 1);
    lemma_word_end_at(s, n + 1, s.len() as int);
    assert(s.subrange(0, n) =~= a);
    assert(s.subrange(n + 1, s.len() as int) =~= b);
}

/// A decimal rendering is a word.
proof fn lemma_decimal_is_word(n: nat)
    ensures
        is_word(decimal(n)),
{
    lemma_decimal_digits(n);
    assert forall|k: int| 0 <= k < decimal(n).len() implies !is_space(#[trigger] decimal(n)[k]) by {
        assert(is_digit(decimal(n)[k]));
    }
}

/// The line `OY_VER` followed by a space and the decimal rendering of `n` is a vote for `n`.
pub proof fn lemma_vote_line(n: u32)
    ensures
        command_of("OY_VER"@ + seq![' '] + decimal(n as nat)) == Ok::<Command, CommandError>(
            Command::Vote(Some(n)),
        ),
{
    reveal_strlit("OY_VER");
    reveal_strlit("ADAY_OYUNU_GOSTER");
    reveal_strlit("ADAY_BILGI_GOSTER");
    reveal_strlit("BUTUN_ADAYLARI_GOSTER");
    let kw = "OY_VER"@;
    assert(is_word(kw)) by {
        assert forall|k: int| 0 <= k < kw.len() implies !is_space(#[trigger] kw[k]) by {}
    }
    lemma_decimal_is_word(n as nat);
    lemma_two_words(kw, decimal(n as nat));
    lemma_parse_u32_of_decimal(n);
    assert(kw != "ADAY_OYUNU_GOSTER"@);
    assert(kw != "ADAY_BILGI_GOSTER"@);
    assert(kw != "BUTUN_ADAYLARI_GOSTER"@);
}

/// A word alone on a line is its first word, and the line has no second word.
pub proof fn lemma_one_word(a: Seq<char>)
    requires
        is_word(a),
    ensures
        first_word(a) == Some(a),
        second_word(a) == None::<Seq<char>>,
{
    lemma_skip_space_at(a, 0, 0);
    lemma_word_end_at(a, 0, a.len() as int);
    lemma_skip_space_at(a, a.len() as int, a.len() as int);
    assert(a.subrange(0, a.len() as int) =~= a);
}

/// Each keyword is a word, and the keywords differ from one another.
proof fn lemma_keywords()
    ensures
        is_word("ADAY_OYUNU_GOSTER"@),
        is_word("ADAY_BILGI_GOSTER"@),
        is_word("BUTUN_ADAYLARI_GOSTER"@),
        is_word("OY_VER"@),
        is_word("ILK_BAGLANTI_KUR"@),
        is_word("ILK_BAGLANTI_BILGI_GONDER"@),
        "ADAY_OYUNU_GOSTER"@ != "ADAY_BILGI_GOSTER"@,
        "ADAY_OYUNU_GOSTER"@ != "BUTUN_ADAYLARI_GOSTER"@,
        "ADAY_OYUNU_GOSTER"@ != "OY_VER"@,
        "ADAY_OYUNU_GOSTER"@ != "ILK_BAGLANTI_KUR"@,
        "ADAY_OYUNU_GOSTER"@ != "ILK_BAGLANTI_BILGI_GONDER"@,
        "ADAY_BILGI_GOSTER"@ != "BUTUN_ADAYLARI_GOSTER"@,
        "ADAY_BILGI_GOSTER"@ != "OY_VER"@,
        "ADAY_BILGI_GOSTER"@ != "ILK_BAGLANTI_KUR"@,
        "ADAY_BILGI_GOSTER"@ != "ILK_BAGLANTI_BILGI_GONDER"@,
        "BUTUN_ADAYLARI_GOSTER"@ != "OY_VER"@,
        "BUTUN_ADAYLARI_GOSTER"@ != "ILK_BAGLANTI_KUR"@,
        "BUTUN_ADAYLARI_GOSTER"@ != "ILK_BAGLANTI_BILGI_GONDER"@,
        "OY_VER"@ != "ILK_BAGLANTI_KUR"@,
        "OY_VER"@ != "ILK_BAGLANTI_BILGI_GONDER"@,
        "ILK_BAGLANTI_KUR"@ != "ILK_BAGLANTI_BILGI_GONDER"@,
{
    reveal_strlit("ADAY_OYUNU_GOSTER");
    reveal_strlit("ADAY_BILGI_GOSTER");
    reveal_strlit("BUTUN_ADAYLARI_GOSTER");
    reveal_strlit("OY_VER");
    reveal_strlit("ILK_BAGLANTI_KUR");
    reveal_strlit("ILK_BAGLANTI_BILGI_GONDER");
    assert("ADAY_OYUNU_GOSTER"@[5] != "ADAY_BILGI_GOSTER"@[5]);
    let ks = seq![
        "ADAY_OYUNU_GOSTER"@,
        "ADAY_BILGI_GOSTER"@,
        "BUTUN_ADAYLARI_GOSTER"@,
        "OY_VER"@,
        "ILK_BAGLANTI_KUR"@,
        "ILK_BAGLANTI_BILGI_GONDER"@,
    ];
    assert forall|j: int, k: int| 0 <= j < 6 && 0 <= k < ks[j].len() implies !is_space(
        #[trigger] ks[j][k],
    ) by {}
    assert(ks[0] == "ADAY_OYUNU_GOSTER"@);
    assert(ks[1] == "ADAY_BILGI_GOSTER"@);
    assert(ks[2] == "BUTUN_ADAYLARI_GOSTER"@);
    assert(ks[3] == "OY_VER"@);
    assert(ks[4] == "ILK_BAGLANTI_KUR"@);
    assert(ks[5] == "ILK_BAGLANTI_BILGI_GONDER"@);
}

/// The console protocol: a keyword that takes a candidate id, followed by a space and the
/// decimal rendering of `n`, is the matching command for `n`; the same keyword alone lacks its
/// id; the keywords that take no id, alone, are their commands; an empty line is no command.
pub proof fn lemma_command_lines(n: u32)
    ensures
        command_of("ADAY_OYUNU_GOSTER"@ + seq![' '] + decimal(n as nat)) == Ok::<
            Command,
            CommandError,
        >(Command::ShowCandidateVotes(Some(n))),
        command_of("ADAY_BILGI_GOSTER"@ + seq![' '] + decimal(n as nat)) == Ok::<
            Command,
            CommandError,
        >(Command::ShowCandidateInfo(Some(n))),
        command_of("OY_VER"@ + seq![' '] + decimal(n as nat)) == Ok::<Command, CommandError>(
            Command::Vote(Some(n)),
        ),
        command_of("ADAY_OYUNU_GOSTER"@) == Err::<Command, CommandError>(
            CommandError::MissingCandidateId,
        ),
        command_of("ADAY_BILGI_GOSTER"@) == Err::<Command, CommandError>(
            CommandError::MissingCandidateId,
        ),
        command_of("OY_VER"@) == Err::<Command, CommandError>(CommandError::MissingCandidateId),
        command_of("BUTUN_ADAYLARI_GOSTER"@) == Ok::<Command, CommandError>(
            Command::ShowAllCandidates,
        ),
        command_of("ILK_BAGLANTI_KUR"@) == Ok::<Command, CommandError>(Command::OpenConnection),
        command_of("ILK_BAGLANTI_BILGI_GONDER"@) == Ok::<Command, CommandError>(
            Command::SendChain,
        ),
        command_of(Seq::<char>::empty()) == Ok::<Command, CommandError>(Command::Empty),
{
    lemma_keywords();
    lemma_decimal_is_word(n as nat);
    lemma_parse_u32_of_decimal(n);
    lemma_two_words("ADAY_OYUNU_GOSTER"@, decimal(n as nat));
    lemma_two_words("ADAY_BILGI_GOSTER"@, decimal(n as nat));
    lemma_two_words("OY_VER"@, decimal(n as nat));
    lemma_one_word("ADAY_OYUNU_GOSTER"@);
    lemma_one_word("ADAY_BILGI_GOSTER"@);
    lemma_one_word("OY_VER"@);
    lemma_one_word("BUTUN_ADAYLARI_GOSTER"@);
    lemma_one_word("ILK_BAGLANTI_KUR"@);
    lemma_one_word("ILK_BAGLANTI_BILGI_GONDER"@);
}

} // verus!

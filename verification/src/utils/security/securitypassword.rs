use vstd::prelude::*;
use vstd::string::*;
use crate::utils::text::{
    char_is_lowercase, char_is_uppercase, chars_of, contains_chars, is_ascii_alphanumeric, is_ascii_alphanumeric_char,
    is_ascii_digit, is_ascii_digit_char, is_lowercase_char, is_substring, occurs_at, is_uppercase_char, lowercase,
    to_lowercase,
};

verus! {

/// Validation rules for the credentials given at registration.
pub struct SecurityPassword;

/// The character classes of which a password must hold a minimum number.
#[derive(Clone, Copy, Debug, PartialEq, Eq, Structural)]
pub enum CharClass {
    /// Characters with the Unicode `Uppercase` property.
    Uppercase,
    /// Characters with the Unicode `Lowercase` property.
    Lowercase,
    /// ASCII decimal digits.
    Digit,
    /// Anything that is not an ASCII letter or digit.
    Special,
}

/// `c` belongs to the class `class`.
pub open spec fn in_class(c: char, class: CharClass) -> bool {
    match class {
        CharClass::Uppercase => is_uppercase_char(c),
        CharClass::Lowercase => is_lowercase_char(c),
        CharClass::Digit => is_ascii_digit_char(c),
        CharClass::Special => !is_ascii_alphanumeric_char(c),
    }
}

/// The number of characters of `s` in the class `class`.
pub open spec fn class_count(s: Seq<char>, class: CharClass) -> nat
    decreases s.len(),
{
    if s.len() == 0 {
        0
    } else {
        class_count(s.drop_last(), class) + if in_class(s.last(), class) {
            1nat
        } else {
            0nat
        }
    }
}

/// No character of `s` is immediately repeated twice (no run of three equal characters).
pub open spec fn no_triple_run(s: Seq<char>) -> bool {
    forall|i: int| 0 <= i && i + 2 < s.len() ==> !(#[trigger] s[i] == s[i + 1] && s[i + 1] == s[i + 2])
}

/// The four character sequences whose runs of four are refused in a password.
pub open spec fn simple_sequence(k: int) -> Seq<char> {
    if k == 0 {
        "abcdefghijklmnopqrstuvwxyz"@
    } else if k == 1 {
        "ABCDEFGHIJKLMNOPQRSTUVWXYZ"@
    } else if k == 2 {
        "0123456789"@
    } else {
        "!@#$%^&*()-_=+[]{}|;:',.<>/?`~"@
    }
}

/// The four consecutive characters of simple sequence `k` that start at `i`.
pub open spec fn simple_window(k: int, i: int) -> Seq<char> {
    simple_sequence(k).subrange(i, i + 4)
}

/// Window `i` of simple sequence `k` exists and occurs in `hay`, forwards or backwards.
pub open spec fn pattern_at(hay: Seq<char>, k: int, i: int) -> bool {
    &&& 0 <= k < 4
    &&& 0 <= i && i + 4 <= simple_sequence(k).len()
    &&& (is_substring(simple_window(k, i), hay) || is_substring(simple_window(k, i).reverse(), hay))
}

/// `hay` holds four consecutive characters of one of the simple sequences, in either direction.
pub open spec fn has_simple_pattern(hay: Seq<char>) -> bool {
    exists|k: int, i: int| #[trigger] pattern_at(hay, k, i)
}

/// The lower-cased form of `s` holds no four consecutive characters of a simple sequence.
pub open spec fn free_of_simple_sequences(s: Seq<char>) -> bool {
    !has_simple_pattern(lowercase(s))
}

/// What `check_username` answers for a user name with the characters `u`.
pub open spec fn username_verdict(u: Seq<char>) -> Result<(), Seq<char>> {
    if u.len() == 0 {
        Err("Le nom d'utilisateur ne peut pas être vide."@)
    } else if u.len() < 2 {
        Err("Le nom d'utilisateur doit contenir au moins 2 caractères."@)
    } else if u.len() > 40 {
        Err("Le nom d'utilisateur ne doit pas dépasser 40 caractères."@)
    } else {
        Ok(())
    }
}

/// What `check_key` answers for a key with the characters `k`.
pub open spec fn key_verdict(k: Seq<char>) -> Result<(), Seq<char>> {
    if k.len() == 0 {
        Err("La clé ne peut pas être vide."@)
    } else if k.len() < 19990 {
        Err("La clé doit contenir au moins 19990 caractères."@)
    } else if k.len() > 40000 {
        Err("La clé ne doit pas dépasser 40000 caractères."@)
    } else {
        Ok(())
    }
}

/// What `validate` answers for a password with the characters `p`.
pub open spec fn password_verdict(p: Seq<char>) -> Result<(), Seq<char>> {
    if p.len() < 20 {
        Err("Le mot de passe doit contenir au moins 20 caractères."@)
    } else if class_count(p, CharClass::Uppercase) < 3 {
        Err("Le mot de passe doit contenir au moins 3 majuscules."@)
    } else if class_count(p, CharClass::Lowercase) < 3 {
        Err("Le mot de passe doit contenir au moins 3 minuscules."@)
    } else if class_count(p, CharClass::Digit) < 3 {
        Err("Le mot de passe doit contenir au moins 3 chiffres."@)
    } else if class_count(p, CharClass::Special) < 3 {
        Err("Le mot de passe doit contenir au moins 3 caractères spéciaux."@)
    } else if !no_triple_run(p) {
        Err("Le mot de passe ne doit pas contenir plus de 2 caractères identiques consécutifs."@)
    } else if !free_of_simple_sequences(p) {
        Err("Le mot de passe ne doit pas contenir de séquences simples comme abcd, 1234, dcba."@)
    } else {
        Ok(())
    }
}

/// What `check_register_params_no_key` answers: the first refusal among the password
/// and the user name, in that order.
pub open spec fn register_no_key_verdict(p: Seq<char>, u: Seq<char>) -> Result<(), Seq<char>> {
    if password_verdict(p) is Err {
        password_verdict(p)
    } else {
        username_verdict(u)
    }
}

/// What `check_register_params` answers: the first refusal among the password, the user
/// name and the key, in that order.
pub open spec fn register_verdict(p: Seq<char>, u: Seq<char>, k: Seq<char>) -> Result<(), Seq<char>> {
    if register_no_key_verdict(p, u) is Err {
        register_no_key_verdict(p, u)
    } else {
        key_verdict(k)
    }
}

/// A `Result<(), String>` read as its message, if any.
pub open spec fn string_verdict(res: Result<(), String>) -> Result<(), Seq<char>> {
    match res {
        Ok(()) => Ok(()),
        Err(m) => Err(m@),
    }
}

proof fn lemma_take_succ(s: Seq<char>, i: int)
    requires
        0 <= i < s.len(),
    ensures
        s.take(i + 1).drop_last() == s.take(i),
        s.take(i + 1).last() == s[i],
{
    assert(s.take(i + 1).drop_last() =~= s.take(i));
}

impl SecurityPassword {
    /// Accepts a user name of 2 to 40 characters.
    pub fn check_username(username: &str) -> (res: Result<(), String>)
        ensures
            string_verdict(res) == username_verdict(username@),
    {
        if username.is_empty() {
            return Err(String::from_str("Le nom d'utilisateur ne peut pas être vide."));
        }
        let n: usize = chars_of(username).len();
        if n < 2 {
            return Err(String::from_str("Le nom d'utilisateur doit contenir au moins 2 caractères."));
        }
        if n > 40 {
            return Err(String::from_str("Le nom d'utilisateur ne doit pas dépasser 40 caractères."));
        }
        Ok(())
    }

    /// Accepts a key of 19990 to 40000 characters.
    pub fn check_key(key: &str) -> (res: Result<(), String>)
        ensures
            string_verdict(res) == key_verdict(key@),
    {
        if key.is_empty() {
            return Err(String::from_str("La clé ne peut pas être vide."));
        }
        let n: usize = chars_of(key).len();
        if n < 19990 {
            return Err(String::from_str("La clé doit contenir au moins 19990 caractères."));
        }
        if n > 40000 {
            return Err(String::from_str("La clé ne doit pas dépasser 40000 caractères."));
        }
        Ok(())
    }

    /// Whether `c` belongs to the class `class`.
    pub fn in_class(c: char, class: CharClass) -> (r: bool)
        ensures
            r == in_class(c, class),
    {
        match class {
            CharClass::Uppercase => char_is_uppercase(c),
            CharClass::Lowercase => char_is_lowercase(c),
            CharClass::Digit => is_ascii_digit(c),
            CharClass::Special => Self::is_special(c),
        }
    }

    /// Whether `s` holds at least `min` characters of the class `class`.
    pub fn has_min_count(s: &str, class: CharClass, min: usize) -> (r: bool)
        ensures
            r == (class_count(s@, class) >= min),
    {
        let v = chars_of(s);
        let mut count: usize = 0;
        let mut i: usize = 0;
        while i < v.len()
            invariant
                v@ == s@,
                i <= v.len(),
                count <= i,
                count == class_count(s@.take(i as int), class),
            decreases v.len() - i,
        {
            proof {
                lemma_take_succ(s@, i as int);
            }
            if Self::in_class(v[i], class) {
                count = count + 1;
            }
            i = i + 1;
        }
        assert(s@.take(v.len() as int) =~= s@);
        count >= min
    }

    /// A special character is anything but an ASCII letter or digit.
    pub fn is_special(c: char) -> (r: bool)
        ensures
            r == !is_ascii_alphanumeric_char(c),
    {
        !is_ascii_alphanumeric(c)
    }

    /// Whether no character of `s` appears three times in a row.
    pub fn no_more_than_two_consecutive(s: &str) -> (r: bool)
        ensures
            r == no_triple_run(s@),
    {
        let v = chars_of(s);
        let mut last_char: char = '\0';
        let mut count: usize = 0;
        let mut i: usize = 0;
        while i < v.len()
            invariant
                v@ == s@,
                i <= v.len(),
                i == 0 ==> count == 0 && last_char == '\0',
                i > 0 ==> last_char == v@[i - 1] && (count == 1 || count == 2),
                i > 0 && count == 2 ==> i >= 2 && v@[i - 2] == v@[i - 1],
                i > 1 && count == 1 ==> v@[i - 2] != v@[i - 1],
                forall|j: int| 0 <= j && j + 2 < i ==> !(#[trigger] v@[j] == v@[j + 1] && v@[j + 1] == v@[j + 2]),
            decreases v.len() - i,
        {
            let c = v[i];
            if c == last_char {
                count = count + 1;
                if count >= 3 {
                    assert(v@[i - 2] == v@[i - 1] && v@[i - 1] == v@[i as int]);
                    return false;
                }
            } else {
                last_char = c;
                count = 1;
            }
            i = i + 1;
        }
        true
    }

    /// The characters of simple sequence `k`.
    fn simple_sequence_chars(k: usize) -> (v: Vec<char>)
        requires
            k < 4,
        ensures
            v@ == simple_sequence(k as int),
            v.len() >= 4,
    {
        if k == 0 {
            proof {
                reveal_strlit("abcdefghijklmnopqrstuvwxyz");
            }
            chars_of("abcdefghijklmnopqrstuvwxyz")
        } else if k == 1 {
            proof {
                reveal_strlit("ABCDEFGHIJKLMNOPQRSTUVWXYZ");
            }
            chars_of("ABCDEFGHIJKLMNOPQRSTUVWXYZ")
        } else if k == 2 {
            proof {
                reveal_strlit("0123456789");
            }
            chars_of("0123456789")
        } else {
            proof {
                reveal_strlit("!@#$%^&*()-_=+[]{}|;:',.<>/?`~");
            }
            chars_of("!@#$%^&*()-_=+[]{}|;:',.<>/?`~")
        }
    }

    /// Whether the lower-cased `s` holds no four consecutive characters of the alphabet
    /// (lower or upper case), the digits or the row of ASCII symbols, forwards or backwards.
    pub fn no_simple_sequences(s: &str) -> (r: bool)
        ensures
            r == free_of_simple_sequences(s@),
    {
        let s_lower = to_lowercase(s);
        let hay = chars_of(s_lower.as_str());
        let mut k: usize = 0;
        while k < 4
            invariant
                hay@ == lowercase(s@),
                k <= 4,
                forall|kk: int, ii: int| 0 <= kk < k ==> !#[trigger] pattern_at(hay@, kk, ii),
            decreases 4 - k,
        {
            let sv = Self::simple_sequence_chars(k);
            let last: usize = sv.len() - 4;
            let mut i: usize = 0;
            while i <= last
                invariant
                    hay@ == lowercase(s@),
                    k < 4,
                    sv@ == simple_sequence(k as int),
                    last == sv.len() - 4,
                    sv.len() >= 4,
                    forall|kk: int, ii: int| 0 <= kk < k ==> !#[trigger] pattern_at(hay@, kk, ii),
                    forall|ii: int| ii < i ==> !#[trigger] pattern_at(hay@, k as int, ii),
                decreases last + 1 - i,
            {
                let mut forward: Vec<char> = Vec::new();
                let mut backward: Vec<char> = Vec::new();
                let mut j: usize = 0;
                while j < 4
                    invariant
                        i <= last,
                        last == sv.len() - 4,
                        j <= 4,
                        forward@ == sv@.subrange(i as int, i + j),
                        backward@ == sv@.subrange(i as int, i + j).reverse(),
                    decreases 4 - j,
                {
                    forward.push(sv[i + j]);
                    backward.insert(0, sv[i + j]);
                    j = j + 1;
                    assert(forward@ =~= sv@.subrange(i as int, i + j));
                    assert(backward@ =~= sv@.subrange(i as int, i + j).reverse());
                }
                assert(forward@ == simple_window(k as int, i as int));
                if contains_chars(&hay, &forward) || contains_chars(&hay, &backward) {
                    assert(pattern_at(hay@, k as int, i as int));
                    return false;
                }
                i = i + 1;
            }
            k = k + 1;
        }
        true
    }

    /// Accepts a password of at least 20 characters with at least 3 upper-case, 3
    /// lower-case, 3 digits and 3 special characters, no character three times in a row
    /// and no run of four characters of the alphabet, the digits or the ASCII symbol row.
    /// The first rule that fails gives the message.
    pub fn validate(password: &str) -> (res: Result<(), String>)
        ensures
            string_verdict(res) == password_verdict(password@),
    {
        if chars_of(password).len() < 20 {
            return Err(String::from_str("Le mot de passe doit contenir au moins 20 caractères."));
        }
        if !Self::has_min_count(password, CharClass::Uppercase, 3) {
            return Err(String::from_str("Le mot de passe doit contenir au moins 3 majuscules."));
        }
        if !Self::has_min_count(password, CharClass::Lowercase, 3) {
            return Err(String::from_str("Le mot de passe doit contenir au moins 3 minuscules."));
        }
        if !Self::has_min_count(password, CharClass::Digit, 3) {
            return Err(String::from_str("Le mot de passe doit contenir au moins 3 chiffres."));
        }
        if !Self::has_min_count(password, CharClass::Special, 3) {
            return Err(String::from_str("Le mot de passe doit contenir au moins 3 caractères spéciaux."));
        }
        if !Self::no_more_than_two_consecutive(password) {
            return Err(String::from_str("Le mot de passe ne doit pas contenir plus de 2 caractères identiques consécutifs."));
        }
        if !Self::no_simple_sequences(password) {
            return Err(String::from_str("Le mot de passe ne doit pas contenir de séquences simples comme abcd, 1234, dcba."));
        }
        Ok(())
    }

    /// Checks the password, then the user name, then the key; the first refusal is returned.
    pub fn check_register_params(password: &str, username: &str, key: &str) -> (res: Result<(), String>)
        ensures
            string_verdict(res) == register_verdict(password@, username@, key@),
    {
        SecurityPassword::validate(password)?;
        SecurityPassword::check_username(username)?;
        SecurityPassword::check_key(key)?;
        Ok(())
    }

    /// Validates registration parameters without requiring a key
    /// (key is auto-generated at registration): the password, then the user name.
    pub fn check_register_params_no_key(password: &str, username: &str) -> (res: Result<(), String>)
        ensures
            string_verdict(res) == register_no_key_verdict(password@, username@),
    {
        SecurityPassword::validate(password)?;
        SecurityPassword::check_username(username)?;
        Ok(())
    }
}

} // verus!

verus! {

/// An accepted password has at least 20 characters, at least three upper-case, three
/// lower-case, three digit and three special characters, no character three times in a
/// row, and no four consecutive characters of a simple sequence once lower-cased.
pub proof fn lemma_accepted_password(p: Seq<char>)
    requires
        password_verdict(p) is Ok,
    ensures
        p.len() >= 20,
        class_count(p, CharClass::Uppercase) >= 3,
        class_count(p, CharClass::Lowercase) >= 3,
        class_count(p, CharClass::Digit) >= 3,
        class_count(p, CharClass::Special) >= 3,
        no_triple_run(p),
        !has_simple_pattern(lowercase(p)),
{
}

/// Registration with a key accepts only what registration without a key accepts, and
/// with a valid key both give the same answer.
pub proof fn lemma_register_with_and_without_key(p: Seq<char>, u: Seq<char>, k: Seq<char>)
    ensures
        register_verdict(p, u, k) is Ok ==> register_no_key_verdict(p, u) is Ok,
        key_verdict(k) is Ok ==> register_verdict(p, u, k) == register_no_key_verdict(p, u),
        register_no_key_verdict(p, u) is Ok ==> register_verdict(p, u, k) == key_verdict(k),
{
}

} // verus!
verus! {

/// Four characters that climb, or fall, by one code point at each step, all within `lo..=hi`.
pub open spec fn is_straight_run(w: Seq<char>, lo: char, hi: char) -> bool {
    &&& w.len() == 4
    &&& forall|m: int| 0 <= m < 4 ==> lo <= #[trigger] w[m] <= hi
    &&& {
        ||| forall|m: int| 0 <= m < 3 ==> w[m + 1] as int == (#[trigger] w[m]) as int + 1
        ||| forall|m: int| 0 <= m < 3 ==> w[m + 1] as int == (#[trigger] w[m]) as int - 1
    }
}

/// The row of ASCII symbols, character by character.
pub open spec fn symbol_row() -> Seq<char> {
    seq![
        '!', '@', '#', '$', '%', '^', '&', '*', '(', ')', '-', '_', '=', '+', '[', ']', '{', '}',
        '|', ';', ':', '\'', ',', '.', '<', '>', '/', '?', '`', '~',
    ]
}

/// Four consecutive symbols of the symbol row, forwards or backwards.
pub open spec fn is_symbol_run(w: Seq<char>) -> bool {
    exists|i: int|
        0 <= i && i + 4 <= symbol_row().len() && (w == #[trigger] symbol_row().subrange(i, i + 4)
            || w == symbol_row().subrange(i, i + 4).reverse())
}

/// Four characters refused in a password: consecutive lower-case letters, upper-case
/// letters or digits, in either direction, or four neighbours on the symbol row.
pub open spec fn is_simple_run(w: Seq<char>) -> bool {
    ||| is_straight_run(w, 'a', 'z')
    ||| is_straight_run(w, 'A', 'Z')
    ||| is_straight_run(w, '0', '9')
    ||| is_symbol_run(w)
}

/// The four characters of `h` from `start` form a simple run.
pub open spec fn simple_run_at(h: Seq<char>, start: int) -> bool {
    &&& 0 <= start
    &&& start + 4 <= h.len()
    &&& is_simple_run(h.subrange(start, start + 4))
}

/// The four refused sequences are the alphabet in lower case, the alphabet in upper case,
/// the ten digits and the symbol row.
pub proof fn lemma_simple_sequence_contents()
    ensures
        simple_sequence(0).len() == 26,
        forall|j: int| 0 <= j < 26 ==> (#[trigger] simple_sequence(0)[j]) as int == 97 + j,
        simple_sequence(1).len() == 26,
        forall|j: int| 0 <= j < 26 ==> (#[trigger] simple_sequence(1)[j]) as int == 65 + j,
        simple_sequence(2).len() == 10,
        forall|j: int| 0 <= j < 10 ==> (#[trigger] simple_sequence(2)[j]) as int == 48 + j,
        simple_sequence(3) == symbol_row(),
{
    reveal_strlit("abcdefghijklmnopqrstuvwxyz");
    reveal_strlit("ABCDEFGHIJKLMNOPQRSTUVWXYZ");
    reveal_strlit("0123456789");
    reveal_strlit("!@#$%^&*()-_=+[]{}|;:',.<>/?`~");
    assert(simple_sequence(3) =~= symbol_row());
}

proof fn lemma_window_is_straight(row: Seq<char>, base: int, lo: char, hi: char, i: int)
    requires
        forall|j: int| 0 <= j < row.len() ==> (#[trigger] row[j]) as int == base + j,
        lo as int == base,
        hi as int == base + row.len() - 1,
        0 <= i,
        i + 4 <= row.len(),
    ensures
        is_straight_run(row.subrange(i, i + 4), lo, hi),
        is_straight_run(row.subrange(i, i + 4).reverse(), lo, hi),
{
    let w = row.subrange(i, i + 4);
    assert(forall|m: int| 0 <= m < 4 ==> (#[trigger] w[m]) as int == base + i + m);
    let r = w.reverse();
    assert(forall|m: int| 0 <= m < 4 ==> (#[trigger] r[m]) as int == base + i + 3 - m);
}

proof fn lemma_straight_is_window(row: Seq<char>, base: int, lo: char, hi: char, w: Seq<char>) -> (i: int)
    requires
        forall|j: int| 0 <= j < row.len() ==> (#[trigger] row[j]) as int == base + j,
        lo as int == base,
        hi as int == base + row.len() - 1,
        is_straight_run(w, lo, hi),
    ensures
        0 <= i,
        i + 4 <= row.len(),
        w == row.subrange(i, i + 4) || w == row.subrange(i, i + 4).reverse(),
{
    assert(lo <= w[0] <= hi && lo <= w[3] <= hi);
    if forall|m: int| 0 <= m < 3 ==> w[m + 1] as int == (#[trigger] w[m]) as int + 1 {
        assert(w[1] as int == w[0] as int + 1);
        assert(w[2] as int == w[1] as int + 1);
        assert(w[3] as int == w[2] as int + 1);
        let i = w[0] as int - base;
        let win = row.subrange(i, i + 4);
        assert forall|m: int| 0 <= m < 4 implies #[trigger] win[m] == w[m] by {
            assert(win[m] as int == w[m] as int);
        }
        assert(win =~= w);
        i
    } else {
        assert(w[1] as int == w[0] as int - 1);
        assert(w[2] as int == w[1] as int - 1);
        assert(w[3] as int == w[2] as int - 1);
        let i = w[3] as int - base;
        let win = row.subrange(i, i + 4).reverse();
        assert forall|m: int| 0 <= m < 4 implies #[trigger] win[m] == w[m] by {
            assert(win[m] as int == w[m] as int);
        }
        assert(win =~= w);
        i
    }
}

/// A lower-cased text holds a refused sequence exactly when four of its consecutive
/// characters are consecutive letters (either case) or digits, in either direction, or
/// four neighbours on the symbol row.
pub proof fn lemma_simple_pattern_is_simple_run(h: Seq<char>)
    ensures
        has_simple_pattern(h) <==> exists|start: int| #[trigger] simple_run_at(h, start),
{
    lemma_simple_sequence_contents();
    if has_simple_pattern(h) {
        let (k, i) = choose|k: int, i: int| #[trigger] pattern_at(h, k, i);
        let fwd = simple_window(k, i);
        let start = if is_substring(fwd, h) {
            choose|start: int| #[trigger] occurs_at(fwd, h, start)
        } else {
            choose|start: int| #[trigger] occurs_at(fwd.reverse(), h, start)
        };
        let w = h.subrange(start, start + 4);
        assert(w == fwd || w == fwd.reverse());
        if k == 0 {
            lemma_window_is_straight(simple_sequence(0), 97, 'a', 'z', i);
        } else if k == 1 {
            lemma_window_is_straight(simple_sequence(1), 65, 'A', 'Z', i);
        } else if k == 2 {
            lemma_window_is_straight(simple_sequence(2), 48, '0', '9', i);
        } else {
            assert(w == symbol_row().subrange(i, i + 4) || w == symbol_row().subrange(i, i + 4).reverse());
            assert(is_symbol_run(w));
        }
        assert(simple_run_at(h, start));
    }
    if exists|start: int| #[trigger] simple_run_at(h, start) {
        let start = choose|start: int| #[trigger] simple_run_at(h, start);
        let w = h.subrange(start, start + 4);
        let k: int;
        let i: int;
        if is_straight_run(w, 'a', 'z') {
            k = 0;
            i = lemma_straight_is_window(simple_sequence(0), 97, 'a', 'z', w);
        } else if is_straight_run(w, 'A', 'Z') {
            k = 1;
            i = lemma_straight_is_window(simple_sequence(1), 65, 'A', 'Z', w);
        } else if is_straight_run(w, '0', '9') {
            k = 2;
            i = lemma_straight_is_window(simple_sequence(2), 48, '0', '9', w);
        } else {
            k = 3;
            i = choose|i: int|
                0 <= i && i + 4 <= symbol_row().len() && (w == #[trigger] symbol_row().subrange(i, i + 4)
                    || w == symbol_row().subrange(i, i + 4).reverse());
        }
        if w == simple_window(k, i) {
            assert(occurs_at(simple_window(k, i), h, start));
        } else {
            assert(occurs_at(simple_window(k, i).reverse(), h, start));
        }
        assert(pattern_at(h, k, i));
    }
}

/// `validate` refuses a password exactly when, among other rules, its lower-cased form
/// holds four consecutive letters or digits (either direction) or four neighbours on the
/// symbol row; an accepted password holds no such four characters, and a password that
/// holds them is refused.
pub proof fn lemma_simple_runs_refused(p: Seq<char>)
    ensures
        free_of_simple_sequences(p) <==> !exists|start: int| #[trigger] simple_run_at(lowercase(p), start),
        (exists|start: int| #[trigger] simple_run_at(lowercase(p), start)) ==> password_verdict(p) is Err,
{
    lemma_simple_pattern_is_simple_run(lowercase(p));
}

/// The length rules: a user name is accepted exactly when it has 2 to 40 characters, a
/// key exactly when it has 19990 to 40000 characters, and a password of fewer than 20
/// characters is always refused.
pub proof fn lemma_length_rules(u: Seq<char>, k: Seq<char>, p: Seq<char>)
    ensures
        username_verdict(u) is Ok <==> 2 <= u.len() <= 40,
        key_verdict(k) is Ok <==> 19990 <= k.len() <= 40000,
        p.len() < 20 ==> password_verdict(p) is Err,
{
}

/// The character classes: digits are `0`..`9`, special characters are those that are not
/// ASCII letters or digits, and upper and lower case follow the Unicode properties (on
/// ASCII, `A`..`Z` and `a`..`z`).
pub proof fn lemma_character_classes(c: char)
    ensures
        in_class(c, CharClass::Digit) <==> ('0' <= c && c <= '9'),
        in_class(c, CharClass::Special) <==> !(('a' <= c && c <= 'z') || ('A' <= c && c <= 'Z') || (
        '0' <= c && c <= '9')),
        in_class(c, CharClass::Uppercase) == is_uppercase_char(c),
        in_class(c, CharClass::Lowercase) == is_lowercase_char(c),
{
}

/// A class count adds up over a concatenation, counts one for a member and none for
/// anything else.
pub proof fn lemma_class_count_additive(s: Seq<char>, t: Seq<char>, class: CharClass)
    ensures
        class_count(s + t, class) == class_count(s, class) + class_count(t, class),
        class_count(seq![], class) == 0,
        forall|c: char| #[trigger] class_count(seq![c], class) == if in_class(c, class) { 1nat } else { 0nat },
    decreases t.len(),
{
    assert forall|c: char| #[trigger] class_count(seq![c], class) == if in_class(c, class) { 1nat } else { 0nat } by {
        assert(seq![c].drop_last() =~= Seq::<char>::empty());
        assert(class_count(Seq::<char>::empty(), class) == 0);
        assert(seq![c].last() == c);
    }
    if t.len() == 0 {
        assert(s + t =~= s);
    } else {
        lemma_class_count_additive(s, t.drop_last(), class);
        assert((s + t).drop_last() =~= s + t.drop_last());
    }
}

/// The character `c` three times.
pub open spec fn thrice(c: char) -> Seq<char> {
    seq![c, c, c]
}

/// A text breaks the rule on repeats exactly when it holds some character three times in a row.
pub proof fn lemma_triple_run(s: Seq<char>)
    ensures
        !no_triple_run(s) <==> exists|c: char| is_substring(thrice(c), s),
{
    if !no_triple_run(s) {
        let i = choose|i: int| 0 <= i && i + 2 < s.len() && (#[trigger] s[i] == s[i + 1] && s[i + 1] == s[i + 2]);
        assert(s.subrange(i, i + 3) =~= thrice(s[i]));
        assert(occurs_at(thrice(s[i]), s, i));
    }
    if exists|c: char| is_substring(thrice(c), s) {
        let c = choose|c: char| is_substring(thrice(c), s);
        let i = choose|i: int| #[trigger] occurs_at(thrice(c), s, i);
        assert(s.subrange(i, i + 3)[0] == s[i]);
        assert(s.subrange(i, i + 3)[1] == s[i + 1]);
        assert(s.subrange(i, i + 3)[2] == s[i + 2]);
    }
}

} // verus!

use crate::utils::text::{chars_of, lowercase, same_chars, string_of, to_lowercase};
use vstd::prelude::*;

verus! {

/// Canonical forms of identifiers and accented texts.
pub struct Normalizer;

/// A decimal digit.
pub open spec fn is_digit(c: char) -> bool {
    '0' <= c && c <= '9'
}

/// Every character of `s` is a decimal digit.
pub open spec fn all_digits(s: Seq<char>) -> bool {
    forall|i: int| 0 <= i < s.len() ==> is_digit(#[trigger] s[i])
}

/// `id` begins with the given prefix, each character of it written as in
/// `lower` or as in `upper`.
pub open spec fn has_prefix_ignoring_case(
    id: Seq<char>,
    lower: Seq<char>,
    upper: Seq<char>,
) -> bool {
    &&& lower.len() <= id.len()
    &&& forall|i: int| 0 <= i < lower.len() ==> id[i] == lower[i] || id[i] == #[trigger] upper[i]
}

/// The length of the hardware prefix at the front of `id`: that of the first
/// known prefix that `id` begins with, whatever the case of its letters, and
/// 0 where there is none.
pub open spec fn prefix_len(id: Seq<char>) -> nat {
    if has_prefix_ignoring_case(id, "rfeye"@, "RFEYE"@) {
        "rfeye"@.len()
    } else if has_prefix_ignoring_case(id, "miaer-"@, "MIAER-"@) {
        "miaer-"@.len()
    } else if has_prefix_ignoring_case(id, "cwsm"@, "CWSM"@) {
        "cwsm"@.len()
    } else if has_prefix_ignoring_case(id, "ums"@, "UMS"@) {
        "ums"@.len()
    } else if has_prefix_ignoring_case(id, "ermx"@, "ERMX"@) {
        "ermx"@.len()
    } else {
        0
    }
}

/// What is left of `id` behind its hardware prefix.
pub open spec fn without_prefix(id: Seq<char>) -> Seq<char> {
    id.skip(prefix_len(id) as int)
}

/// `s` without its leading zeros, but for the last character, which stays.
pub open spec fn strip_zeros(s: Seq<char>) -> Seq<char>
    decreases s.len(),
{
    if s.len() > 1 && s[0] == '0' {
        strip_zeros(s.skip(1))
    } else {
        s
    }
}

/// The numeric key of `id`: where what follows the hardware prefix is made of
/// digits only, those digits without leading zeros.
pub open spec fn numeric_key(id: Seq<char>) -> Option<Seq<char>> {
    if all_digits(without_prefix(id)) {
        Some(strip_zeros(without_prefix(id)))
    } else {
        None
    }
}

/// The normalized key of `id`: its numeric key where it has one, and else the
/// whole of `id` in lowercase.
pub open spec fn normalized_id(id: Seq<char>) -> Seq<char> {
    match numeric_key(id) {
        Some(key) => key,
        None => lowercase(id),
    }
}

/// The digits of `s`, in order.
pub open spec fn digits_of(s: Seq<char>) -> Seq<char> {
    s.filter(|c: char| is_digit(c))
}

/// Two normalized keys stand for the same station: they are equal, or both
/// hold digits and hold the same ones.
pub open spec fn keys_match(key1: Seq<char>, key2: Seq<char>) -> bool {
    key1 == key2 || (digits_of(key1).len() > 0 && digits_of(key1) == digits_of(key2))
}

/// The unaccented letter for an accented Latin letter; any other character
/// is kept.
pub open spec fn unaccent(c: char) -> char {
    match c {
        'á' | 'à' | 'ã' | 'â' => 'a',
        'é' | 'è' | 'ê' => 'e',
        'í' | 'ì' | 'î' => 'i',
        'ó' | 'ò' | 'õ' | 'ô' => 'o',
        'ú' | 'ù' | 'û' => 'u',
        'ç' => 'c',
        'Á' | 'À' | 'Ã' | 'Â' => 'A',
        'É' | 'È' | 'Ê' => 'E',
        'Í' | 'Ì' | 'Î' => 'I',
        'Ó' | 'Ò' | 'Õ' | 'Ô' => 'O',
        'Ú' | 'Ù' | 'Û' => 'U',
        'Ç' => 'C',
        _ => c,
    }
}

/// `text` with each accented letter replaced by the unaccented one.
pub open spec fn normalized_text(text: Seq<char>) -> Seq<char> {
    text.map_values(|c: char| unaccent(c))
}

/// Whether `c` is a decimal digit.
fn is_digit_char(c: char) -> (r: bool)
    ensures
        r == is_digit(c),
{
    '0' <= c && c <= '9'
}

/// The unaccented letter for an accented Latin letter, else `c` itself.
fn unaccent_char(c: char) -> (r: char)
    ensures
        r == unaccent(c),
{
    match c {
        'á' | 'à' | 'ã' | 'â' => 'a',
        'é' | 'è' | 'ê' => 'e',
        'í' | 'ì' | 'î' => 'i',
        'ó' | 'ò' | 'õ' | 'ô' => 'o',
        'ú' | 'ù' | 'û' => 'u',
        'ç' => 'c',
        'Á' | 'À' | 'Ã' | 'Â' => 'A',
        'É' | 'È' | 'Ê' => 'E',
        'Í' | 'Ì' | 'Î' => 'I',
        'Ó' | 'Ò' | 'Õ' | 'Ô' => 'O',
        'Ú' | 'Ù' | 'Û' => 'U',
        'Ç' => 'C',
        _ => c,
    }
}

/// Whether `id` begins with the prefix, written as in `lower` or `upper`.
fn begins_ignoring_case(id: &Vec<char>, lower: &str, upper: &str) -> (r: bool)
    requires
        lower@.len() == upper@.len(),
    ensures
        r == has_prefix_ignoring_case(id@, lower@, upper@),
{
    let lo = chars_of(lower);
    let up = chars_of(upper);
    if lo.len() > id.len() {
        return false;
    }
    let mut i: usize = 0;
    while i < lo.len()
        invariant
            lo@ == lower@,
            up@ == upper@,
            lo.len() == up.len(),
            lo.len() <= id.len(),
            i <= lo.len(),
            forall|j: int| 0 <= j < i ==> id@[j] == lo@[j] || id@[j] == #[trigger] up@[j],
        decreases lo.len() - i,
    {
        if id[i] != lo[i] && id[i] != up[i] {
            assert(!(id@[i as int] == lower@[i as int] || id@[i as int] == upper@[i as int]));
            return false;
        }
        i += 1;
    }
    true
}

/// The length of the hardware prefix at the front of `id`.
fn hardware_prefix_len(id: &Vec<char>) -> (n: usize)
    ensures
        n == prefix_len(id@),
        n <= id.len(),
{
    proof {
        reveal_strlit("rfeye");
        reveal_strlit("RFEYE");
        reveal_strlit("miaer-");
        reveal_strlit("MIAER-");
        reveal_strlit("cwsm");
        reveal_strlit("CWSM");
        reveal_strlit("ums");
        reveal_strlit("UMS");
        reveal_strlit("ermx");
        reveal_strlit("ERMX");
    }
    if begins_ignoring_case(id, "rfeye", "RFEYE") {
        5
    } else if begins_ignoring_case(id, "miaer-", "MIAER-") {
        6
    } else if begins_ignoring_case(id, "cwsm", "CWSM") {
        4
    } else if begins_ignoring_case(id, "ums", "UMS") {
        3
    } else if begins_ignoring_case(id, "ermx", "ERMX") {
        4
    } else {
        0
    }
}

impl Normalizer {
    /// The numeric key of an identifier: the hardware prefix is taken off its
    /// front and, where only digits are left, these are returned without
    /// their leading zeros (a lone zero stays). `None` where something other
    /// than a digit is left.
    pub fn numeric_key(id: &str) -> (key: Option<String>)
        ensures
            match key {
                Some(k) => numeric_key(id@) == Some(k@),
                None => numeric_key(id@) is None,
            },
    {
        let chars = chars_of(id);
        let start = hardware_prefix_len(&chars);
        let len = chars.len();
        let ghost rest = without_prefix(id@);
        let mut i: usize = start;
        while i < len
            invariant
                chars@ == id@,
                len == chars.len(),
                start <= i <= len,
                start == prefix_len(id@),
                rest == id@.skip(start as int),
                forall|j: int| start <= j < i ==> is_digit(#[trigger] chars@[j]),
            decreases len - i,
        {
            if !is_digit_char(chars[i]) {
                assert(!is_digit(rest[i - start]));
                return None;
            }
            i += 1;
        }
        assert(all_digits(rest)) by {
            assert forall|j: int| 0 <= j < rest.len() implies is_digit(#[trigger] rest[j]) by {
                assert(rest[j] == chars@[start + j]);
            }
        }
        let mut k: usize = start;
        while k < len && len - k > 1 && chars[k] == '0'
            invariant
                chars@ == id@,
                len == chars.len(),
                start <= k <= len,
                strip_zeros(rest) == strip_zeros(id@.skip(k as int)),
            decreases len - k,
        {
            assert(id@.skip(k as int).skip(1) == id@.skip(k + 1));
            k += 1;
        }
        let key = string_of(&chars, k, len);
        assert(id@.skip(k as int) == chars@.subrange(k as int, len as int));
        Some(key)
    }

    /// The normalized key of an identifier: its numeric key where it has
    /// one, and else the whole identifier in lowercase.
    pub fn normalize_id(id: &str) -> (key: String)
        ensures
            key@ == normalized_id(id@),
    {
        match Normalizer::numeric_key(id) {
            Some(key) => key,
            None => to_lowercase(id),
        }
    }

    /// Replaces each accented Latin letter by the unaccented one and keeps
    /// every other character.
    pub fn normalize_text(text: &str) -> (plain: String)
        ensures
            plain@ == normalized_text(text@),
    {
        let chars = chars_of(text);
        let mut plain: Vec<char> = Vec::new();
        let mut i: usize = 0;
        while i < chars.len()
            invariant
                chars@ == text@,
                i <= chars.len(),
                plain@ == normalized_text(text@.take(i as int)),
            decreases chars.len() - i,
        {
            plain.push(unaccent_char(chars[i]));
            assert(normalized_text(text@.take(i as int)).push(unaccent(text@[i as int]))
                == normalized_text(text@.take(i + 1)));
            i += 1;
        }
        assert(text@.take(i as int) == text@);
        string_of(&plain, 0, plain.len())
    }

    /// The digits of a text, in order.
    pub fn digits(text: &str) -> (d: Vec<char>)
        ensures
            d@ == digits_of(text@),
    {
        let chars = chars_of(text);
        let mut d: Vec<char> = Vec::new();
        let mut i: usize = 0;
        while i < chars.len()
            invariant
                chars@ == text@,
                i <= chars.len(),
                d@ == digits_of(text@.take(i as int)),
            decreases chars.len() - i,
        {
            proof {
                let next = text@.take(i + 1);
                assert(next.drop_last() == text@.take(i as int));
                reveal(Seq::filter);
            }
            if is_digit_char(chars[i]) {
                d.push(chars[i]);
            }
            i += 1;
        }
        assert(text@.take(i as int) == text@);
        d
    }

    /// Whether two normalized keys stand for the same station: they are
    /// equal, or both hold digits and hold the same ones.
    pub fn keys_match(key1: &str, key2: &str) -> (r: bool)
        ensures
            r == keys_match(key1@, key2@),
    {
        let a = chars_of(key1);
        let b = chars_of(key2);
        if same_chars(&a, &b) {
            return true;
        }
        let d1 = Normalizer::digits(key1);
        let d2 = Normalizer::digits(key2);
        d1.len() > 0 && same_chars(&d1, &d2)
    }

    /// Whether two identifiers stand for the same station: whether their
    /// normalized keys match.
    pub fn ids_match(id1: &str, id2: &str) -> (r: bool)
        ensures
            r == keys_match(normalized_id(id1@), normalized_id(id2@)),
    {
        let norm1 = Normalizer::normalize_id(id1);
        let norm2 = Normalizer::normalize_id(id2);
        Normalizer::keys_match(norm1.as_str(), norm2.as_str())
    }
}

/// Stripping the leading zeros of a run of digits leaves a run of digits
/// that has no leading zero to lose.
pub proof fn lemma_strip_zeros_digits(s: Seq<char>)
    requires
        all_digits(s),
    ensures
        all_digits(strip_zeros(s)),
        strip_zeros(strip_zeros(s)) == strip_zeros(s),
    decreases s.len(),
{
    if s.len() > 1 && s[0] == '0' {
        let tail = s.skip(1);
        assert forall|i: int| 0 <= i < tail.len() implies is_digit(#[trigger] tail[i]) by {
            assert(tail[i] == s[i + 1]);
        }
        lemma_strip_zeros_digits(tail);
    }
}

/// A run of digits begins with no hardware prefix.
pub proof fn lemma_digits_have_no_prefix(s: Seq<char>)
    requires
        all_digits(s),
    ensures
        prefix_len(s) == 0,
        without_prefix(s) == s,
{
    reveal_strlit("rfeye");
    reveal_strlit("RFEYE");
    reveal_strlit("miaer-");
    reveal_strlit("MIAER-");
    reveal_strlit("cwsm");
    reveal_strlit("CWSM");
    reveal_strlit("ums");
    reveal_strlit("UMS");
    reveal_strlit("ermx");
    reveal_strlit("ERMX");
    if s.len() > 0 {
        assert(is_digit(s[0]));
        assert("RFEYE"@[0] == 'R');
        assert("MIAER-"@[0] == 'M');
        assert("CWSM"@[0] == 'C');
        assert("UMS"@[0] == 'U');
        assert("ERMX"@[0] == 'E');
    }
    assert(s.skip(0) == s);
}

/// Normalizing is idempotent on identifiers that hold only digits behind
/// their hardware prefix: the key of such an identifier is its own key.
pub proof fn lemma_normalize_id_idempotent(id: Seq<char>)
    requires
        all_digits(without_prefix(id)),
    ensures
        normalized_id(normalized_id(id)) == normalized_id(id),
{
    let key = normalized_id(id);
    lemma_strip_zeros_digits(without_prefix(id));
    lemma_digits_have_no_prefix(key);
}

} // verus!

//! Rules on the text of titles, descriptions and identifiers.

use vstd::prelude::*;
use vstd::string::*;
use vstd::utf8::encode_utf8;

verus! {

/// A control character that no title or description may hold: every code
/// below U+0020 but tab, line feed and carriage return, and U+007F.
pub open spec fn is_forbidden_char(c: char) -> bool {
    let code = c as u32;
    code <= 0x08 || (0x0B <= code && code <= 0x0C) || (0x0E <= code && code <= 0x1F) || code
        == 0x7F
}

/// Whether some character of `s` is forbidden.
pub open spec fn has_forbidden(s: Seq<char>) -> bool {
    exists|i: int| 0 <= i < s.len() && is_forbidden_char(#[trigger] s[i])
}

/// Whether no title or description may hold the character.
pub fn is_forbidden(c: char) -> (r: bool)
    ensures
        r == is_forbidden_char(c),
{
    let code: u32 = c as u32;
    code <= 0x08 || (0x0B <= code && code <= 0x0C) || (0x0E <= code && code <= 0x1F) || code
        == 0x7F
}

/// Whether some character of `s` is forbidden.
pub fn has_forbidden_char(s: &str) -> (found: bool)
    ensures
        found == has_forbidden(s@),
{
    for c in it: s.chars()
        invariant
            it.seq() == s@,
            forall|j: int| 0 <= j < it.index() ==> !is_forbidden_char(#[trigger] s@[j]),
    {
        if is_forbidden(c) {
            return true;
        }
    }
    false
}

/// A character with the Unicode property `White_Space`.
pub open spec fn is_whitespace(c: char) -> bool {
    let code = c as u32;
    (0x09 <= code && code <= 0x0D) || code == 0x20 || code == 0x85 || code == 0xA0 || code
        == 0x1680 || (0x2000 <= code && code <= 0x200A) || code == 0x2028 || code == 0x2029
        || code == 0x202F || code == 0x205F || code == 0x3000
}

/// `s` without its leading whitespace.
pub open spec fn trim_start(s: Seq<char>) -> Seq<char>
    decreases s.len(),
{
    if s.len() > 0 && is_whitespace(s[0]) {
        trim_start(s.drop_first())
    } else {
        s
    }
}

/// `s` without its trailing whitespace.
pub open spec fn trim_end(s: Seq<char>) -> Seq<char>
    decreases s.len(),
{
    if s.len() > 0 && is_whitespace(s.last()) {
        trim_end(s.drop_last())
    } else {
        s
    }
}

/// `s` without the whitespace that surrounds it.
pub open spec fn trimmed(s: Seq<char>) -> Seq<char> {
    trim_end(trim_start(s))
}

/// Text that trimming leaves as it is: empty, or with a first and a last
/// character that are not whitespace.
pub open spec fn is_trimmed(s: Seq<char>) -> bool {
    s.len() == 0 || (!is_whitespace(s[0]) && !is_whitespace(s.last()))
}

/// What is left of a text after `trim_start` begins with a character that is
/// not whitespace, and is no longer than the text.
pub proof fn lemma_trim_start_head(s: Seq<char>)
    ensures
        trim_start(s).len() <= s.len(),
        trim_start(s).len() > 0 ==> !is_whitespace(trim_start(s)[0]),
        trim_start(s).len() > 0 ==> trim_start(s).last() == s.last(),
    decreases s.len(),
{
    if s.len() > 0 && is_whitespace(s[0]) {
        lemma_trim_start_head(s.drop_first());
    }
}

/// What is left of a text after `trim_end` ends with a character that is not
/// whitespace, and keeps the first character where that is not whitespace.
pub proof fn lemma_trim_end_tail(s: Seq<char>)
    ensures
        trim_end(s).len() <= s.len(),
        trim_end(s).len() > 0 ==> !is_whitespace(trim_end(s).last()),
        trim_end(s).len() > 0 ==> trim_end(s)[0] == s[0],
        s.len() > 0 && !is_whitespace(s[0]) ==> trim_end(s).len() > 0,
    decreases s.len(),
{
    if s.len() > 0 && is_whitespace(s.last()) {
        lemma_trim_end_tail(s.drop_last());
    }
}

/// A trimmed text begins and ends with characters that are not whitespace.
pub proof fn lemma_trimmed_is_trimmed(s: Seq<char>)
    ensures
        is_trimmed(trimmed(s)),
        trimmed(s).len() <= s.len(),
{
    lemma_trim_start_head(s);
    lemma_trim_end_tail(trim_start(s));
}

/// What is left after `trim_start` is the end of the text.
pub proof fn lemma_trim_start_is_suffix(s: Seq<char>)
    ensures
        trim_start(s).len() <= s.len(),
        forall|i: int|
            0 <= i < trim_start(s).len() ==> #[trigger] trim_start(s)[i] == s[i + s.len()
                - trim_start(s).len()],
    decreases s.len(),
{
    if s.len() > 0 && is_whitespace(s[0]) {
        lemma_trim_start_is_suffix(s.drop_first());
    }
}

/// What is left after `trim_end` is the beginning of the text.
pub proof fn lemma_trim_end_is_prefix(s: Seq<char>)
    ensures
        trim_end(s).len() <= s.len(),
        forall|i: int| 0 <= i < trim_end(s).len() ==> #[trigger] trim_end(s)[i] == s[i],
    decreases s.len(),
{
    if s.len() > 0 && is_whitespace(s.last()) {
        lemma_trim_end_is_prefix(s.drop_last());
    }
}

/// Trimming brings no forbidden character into a text.
pub proof fn lemma_trimmed_keeps_clean(s: Seq<char>)
    requires
        !has_forbidden(s),
    ensures
        !has_forbidden(trimmed(s)),
{
    lemma_trim_start_is_suffix(s);
    lemma_trim_end_is_prefix(trim_start(s));
    let t = trimmed(s);
    if has_forbidden(t) {
        let i = choose|i: int| 0 <= i < t.len() && is_forbidden_char(#[trigger] t[i]);
        let j = i + s.len() - trim_start(s).len();
        assert(t[i] == trim_start(s)[i]);
        assert(trim_start(s)[i] == s[j]);
        assert(is_forbidden_char(s[j]));
    }
}

/// Trimming changes a text exactly when the text is not trimmed already.
pub proof fn lemma_trimmed_fixed_point(s: Seq<char>)
    ensures
        is_trimmed(s) <==> trimmed(s) == s,
{
    if trimmed(s) == s {
        lemma_trimmed_is_trimmed(s);
    }
}

/// Trimming a second time changes nothing.
pub proof fn lemma_trimmed_idempotent(s: Seq<char>)
    ensures
        trimmed(trimmed(s)) == trimmed(s),
{
    lemma_trimmed_is_trimmed(s);
    lemma_trimmed_fixed_point(trimmed(s));
}

/// `str::trim`: the slice without its leading and trailing characters of
/// the Unicode property `White_Space`.
#[verifier::external_body]
fn trim_slice(s: &str) -> (t: &str)
    ensures
        t@ == trimmed(s@),
{
    s.trim()
}

/// An owned copy of `s` without the whitespace that surrounds it.
pub fn trim_text(s: &str) -> (t: String)
    ensures
        t@ == trimmed(s@),
{
    trim_slice(s).to_owned()
}

/// The decimal digit for a value below ten.
pub open spec fn digit(d: nat) -> char {
    if d == 0 {
        '0'
    } else if d == 1 {
        '1'
    } else if d == 2 {
        '2'
    } else if d == 3 {
        '3'
    } else if d == 4 {
        '4'
    } else if d == 5 {
        '5'
    } else if d == 6 {
        '6'
    } else if d == 7 {
        '7'
    } else if d == 8 {
        '8'
    } else {
        '9'
    }
}

/// A number written in decimal, without leading zeros.
pub open spec fn decimal(n: nat) -> Seq<char>
    decreases n,
{
    if n < 10 {
        seq![digit(n)]
    } else {
        decimal(n / 10).push(digit(n % 10))
    }
}

/// `ToString::to_string` on a `u128`: the number in decimal digits.
#[verifier::external_body]
fn number_to_string(n: u128) -> (s: String)
    ensures
        s@ == decimal(n as nat),
{
    n.to_string()
}

/// The decimal text of `n`.
pub fn decimal_text(n: u128) -> (s: String)
    ensures
        s@ == decimal(n as nat),
{
    number_to_string(n)
}

/// The identifier of an entity: its kind, its owner and the time of its
/// creation, joined by hyphens.
pub open spec fn entity_id(kind: Seq<char>, owner: Seq<char>, now: u64) -> Seq<char> {
    kind + seq!['-'] + owner + seq!['-'] + decimal(now as nat)
}

/// The identifier of an entity of `kind` made for `owner` at the time
/// `now`.
pub fn make_entity_id(kind: &str, owner: &str, now: u64) -> (id: String)
    ensures
        id@ == entity_id(kind@, owner@, now),
{
    proof {
        reveal_strlit("-");
    }
    let mut id = kind.to_owned();
    id.append("-");
    id.append(owner);
    id.append("-");
    let stamp = number_to_string(now as u128);
    id.append(stamp.as_str());
    assert("-"@ =~= seq!['-']);
    id
}

/// The number of bytes that a text takes in UTF-8.
pub open spec fn byte_len(s: Seq<char>) -> nat {
    encode_utf8(s).len()
}

/// The number of bytes of `s`.
pub fn text_bytes(s: &String) -> (n: usize)
    ensures
        n == byte_len(s@),
{
    s.as_str().as_bytes().len()
}

/// Whether two texts are the same.
pub fn same_text(a: &String, b: &String) -> (same: bool)
    ensures
        same == (a@ == b@),
{
    *a == *b
}

/// The texts of a list of identifiers.
pub open spec fn id_texts(ids: Seq<String>) -> Seq<Seq<char>> {
    Seq::new(ids.len(), |i: int| ids[i]@)
}

/// A copy of a list of identifiers.
pub fn copy_ids(ids: &Vec<String>) -> (copy: Vec<String>)
    ensures
        id_texts(copy@) == id_texts(ids@),
{
    let mut copy: Vec<String> = Vec::new();
    let mut i: usize = 0;
    while i < ids.len()
        invariant
            i <= ids.len(),
            copy@.len() == i,
            forall|k: int| 0 <= k < i ==> copy@[k]@ == ids@[k]@,
        decreases ids.len() - i,
    {
        copy.push(ids[i].clone());
        i += 1;
    }
    assert(id_texts(copy@) =~= id_texts(ids@));
    copy
}

/// Whether `id` occurs among `ids`.
pub fn contains_id(ids: &Vec<String>, id: &String) -> (found: bool)
    ensures
        found == id_texts(ids@).contains(id@),
{
    let mut i: usize = 0;
    while i < ids.len()
        invariant
            i <= ids.len(),
            forall|k: int| 0 <= k < i ==> id_texts(ids@)[k] != id@,
        decreases ids.len() - i,
    {
        if same_text(&ids[i], id) {
            assert(id_texts(ids@)[i as int] == id@);
            return true;
        }
        i += 1;
    }
    false
}

} // verus!

//! Which strings of a document are candidate field names.
//!
//! The classifiers tell timestamps, version numbers and addresses of the web
//! from other strings by their shape. They are heuristics and know nothing
//! of locales.

use vstd::prelude::*;
use crate::json::{json_of, members_of, models_of, shape_of, strictly_sorted, Json, Shape};
use crate::shadow_tree::{descendant_count, items_total, members_total};
use crate::jsonpath::texts_of;
use crate::text::{
    chars_of, digit_char_test, has_char, is_digit, string_of, trim_chars, trimmed,
};
use crate::text_map::{key_seq, lemma_listing_unique, map_of, TextMap};

verus! {

/// The number of bytes that a character takes in UTF-8.
pub open spec fn char_width(c: char) -> nat {
    if c <= '\u{7f}' {
        1
    } else if c <= '\u{7ff}' {
        2
    } else if c <= '\u{ffff}' {
        3
    } else {
        4
    }
}

/// The number of bytes that a text takes in UTF-8, which is the length that
/// the classifiers go by.
pub open spec fn byte_len(s: Seq<char>) -> nat
    decreases s.len(),
{
    if s.len() == 0 {
        0
    } else {
        byte_len(s.drop_last()) + char_width(s.last())
    }
}

/// The largest length that any classifier asks about.
pub const LENGTH_CAP: usize = 2000;

/// The length of a text in bytes where it is at most `LENGTH_CAP`, and
/// `LENGTH_CAP + 1` where it is more.
pub fn capped_byte_len(s: &Vec<char>) -> (n: usize)
    ensures
        byte_len(s@) <= LENGTH_CAP ==> n == byte_len(s@),
        byte_len(s@) > LENGTH_CAP ==> n == LENGTH_CAP + 1,
{
    let mut n: usize = 0;
    let mut i: usize = 0;
    while i < s.len()
        invariant
            i <= s.len(),
            n <= LENGTH_CAP,
            n == byte_len(s@.take(i as int)),
        decreases s.len() - i,
    {
        let c = s[i];
        let w: usize = if c <= '\u{7f}' {
            1
        } else if c <= '\u{7ff}' {
            2
        } else if c <= '\u{ffff}' {
            3
        } else {
            4
        };
        proof {
            let next = s@.take(i + 1);
            assert(next.drop_last() =~= s@.take(i as int));
            assert(next.last() == c);
            lemma_byte_len_grows(s@, i + 1);
        }
        if n + w > LENGTH_CAP {
            return LENGTH_CAP + 1;
        }
        n = n + w;
        i = i + 1;
    }
    assert(s@.take(s.len() as int) =~= s@);
    n
}

/// A longer text takes no fewer bytes than its beginning.
proof fn lemma_byte_len_grows(s: Seq<char>, k: int)
    requires
        0 <= k <= s.len(),
    ensures
        byte_len(s.take(k)) <= byte_len(s),
    decreases s.len() - k,
{
    if k < s.len() {
        lemma_byte_len_grows(s, k + 1);
        let next = s.take(k + 1);
        assert(next.drop_last() =~= s.take(k));
    } else {
        assert(s.take(k) =~= s);
    }
}

/// The number of times that a character occurs in a text.
pub open spec fn occurrences(s: Seq<char>, c: char) -> nat
    decreases s.len(),
{
    if s.len() == 0 {
        0
    } else if s.last() == c {
        occurrences(s.drop_last(), c) + 1
    } else {
        occurrences(s.drop_last(), c)
    }
}

/// Whether a text is a date: four digits, a hyphen, two digits, a hyphen, two
/// digits.
pub open spec fn is_date(s: Seq<char>) -> bool {
    &&& s.len() == 10
    &&& s[4] == '-'
    &&& s[7] == '-'
    &&& forall|i: int| 0 <= i < 10 && i != 4 && i != 7 ==> is_digit(#[trigger] s[i])
}

/// Whether a text is a time of day: three groups of digits with a colon
/// between one and the next. A group may be empty.
pub open spec fn is_clock(s: Seq<char>) -> bool {
    &&& occurrences(s, ':') == 2
    &&& forall|i: int| 0 <= i < s.len() ==> (#[trigger] s[i]) == ':' || is_digit(s[i])
}

/// Whether a text has the shape of a timestamp: 8 to 30 bytes long, with a
/// hyphen, a colon, a `T` or a `Z` in it, and either a date, or a time of
/// day, or anything that holds a `T`, a hyphen and a colon together.
pub open spec fn is_time_shaped(s: Seq<char>) -> bool {
    &&& 8 <= byte_len(s) <= 30
    &&& (s.contains('-') || s.contains(':') || s.contains('T') || s.contains('Z'))
    &&& ((s.contains('T') && s.contains('-') && s.contains(':')) || is_date(s) || is_clock(s))
}

/// Whether every character of a text is a digit or the given separator.
fn digits_and(s: &Vec<char>, separator: char) -> (b: bool)
    ensures
        b == forall|i: int| 0 <= i < s.len() ==> (#[trigger] s@[i]) == separator || is_digit(s@[i]),
{
    let mut i: usize = 0;
    while i < s.len()
        invariant
            i <= s.len(),
            forall|j: int| 0 <= j < i ==> (#[trigger] s@[j]) == separator || is_digit(s@[j]),
        decreases s.len() - i,
    {
        if s[i] != separator && !digit_char_test(s[i]) {
            return false;
        }
        i = i + 1;
    }
    true
}

/// Whether a character occurs exactly `wanted` times in a text.
fn occurs_times(s: &Vec<char>, c: char, wanted: usize) -> (b: bool)
    ensures
        b == (occurrences(s@, c) == wanted),
{
    let mut n: usize = 0;
    let mut i: usize = 0;
    while i < s.len()
        invariant
            i <= s.len(),
            n <= i,
            n == occurrences(s@.take(i as int), c),
        decreases s.len() - i,
    {
        proof {
            let next = s@.take(i + 1);
            assert(next.drop_last() =~= s@.take(i as int));
            assert(next.last() == s@[i as int]);
        }
        if s[i] == c {
            n = n + 1;
        }
        i = i + 1;
    }
    assert(s@.take(s.len() as int) =~= s@);
    n == wanted
}

fn date(s: &Vec<char>) -> (b: bool)
    ensures
        b == is_date(s@),
{
    if s.len() != 10 {
        return false;
    }
    if s[4] != '-' || s[7] != '-' {
        return false;
    }
    let mut i: usize = 0;
    while i < 10
        invariant
            i <= 10,
            s.len() == 10,
            forall|j: int| 0 <= j < i && j != 4 && j != 7 ==> is_digit(#[trigger] s@[j]),
        decreases 10 - i,
    {
        if i != 4 && i != 7 && !digit_char_test(s[i]) {
            return false;
        }
        i = i + 1;
    }
    true
}

fn clock(s: &Vec<char>) -> (b: bool)
    ensures
        b == is_clock(s@),
{
    occurs_times(s, ':', 2) && digits_and(s, ':')
}

/// Whether a text has the shape of a timestamp.
pub fn is_time_format(s: &Vec<char>) -> (b: bool)
    ensures
        b == is_time_shaped(s@),
{
    let len = capped_byte_len(s);
    if len < 8 || len > 30 {
        return false;
    }
    let hyphen = has_char(s, '-');
    let colon = has_char(s, ':');
    let upper_t = has_char(s, 'T');
    if !(hyphen || colon || upper_t || has_char(s, 'Z')) {
        return false;
    }
    if upper_t && hyphen && colon {
        return true;
    }
    date(s) || clock(s)
}

/// A text without the `v` or `V` that it may begin with.
pub open spec fn after_version_mark(s: Seq<char>) -> Seq<char> {
    if s.len() > 0 && (s[0] == 'v' || s[0] == 'V') {
        s.drop_first()
    } else {
        s
    }
}

/// Whether a text consists of groups of digits with a dot between one and
/// the next, no group empty.
pub open spec fn is_dotted_digits(d: Seq<char>) -> bool {
    &&& d.len() > 0
    &&& d[0] != '.'
    &&& d.last() != '.'
    &&& forall|i: int| 0 <= i < d.len() ==> (#[trigger] d[i]) == '.' || is_digit(d[i])
    &&& forall|i: int| 0 <= i < d.len() - 1 ==> !((#[trigger] d[i]) == '.' && d[i + 1] == '.')
}

/// Whether a text has the shape of a version number: 3 to 20 bytes long,
/// and, after a `v` or `V` that it may begin with, two to four groups of
/// digits with a dot between one and the next.
pub open spec fn is_version_shaped(s: Seq<char>) -> bool {
    &&& 3 <= byte_len(s) <= 20
    &&& s.contains('.')
    &&& 1 <= occurrences(after_version_mark(s), '.') <= 3
    &&& is_dotted_digits(after_version_mark(s))
}

fn dotted_digits(d: &Vec<char>) -> (b: bool)
    ensures
        b == is_dotted_digits(d@),
{
    if d.len() == 0 {
        return false;
    }
    if d[0] == '.' || d[d.len() - 1] == '.' {
        return false;
    }
    if !digits_and(d, '.') {
        return false;
    }
    let mut i: usize = 0;
    while i + 1 < d.len()
        invariant
            i < d.len(),
            forall|j: int| 0 <= j < i ==> !((#[trigger] d@[j]) == '.' && d@[j + 1] == '.'),
        decreases d.len() - i,
    {
        if d[i] == '.' && d[i + 1] == '.' {
            return false;
        }
        i = i + 1;
    }
    true
}

/// Whether a text has the shape of a version number.
pub fn is_version_format(s: &Vec<char>) -> (b: bool)
    ensures
        b == is_version_shaped(s@),
{
    let len = capped_byte_len(s);
    if len < 3 || len > 20 {
        return false;
    }
    if !has_char(s, '.') {
        return false;
    }
    let from: usize = if s.len() > 0 && (s[0] == 'v' || s[0] == 'V') {
        1
    } else {
        0
    };
    let mut d: Vec<char> = Vec::new();
    let mut i: usize = from;
    while i < s.len()
        invariant
            from <= i <= s.len(),
            d@ == s@.subrange(from as int, i as int),
        decreases s.len() - i,
    {
        d.push(s[i]);
        assert(d@ =~= s@.subrange(from as int, i + 1));
        i = i + 1;
    }
    assert(d@ =~= after_version_mark(s@));
    if occurs_times(&d, '.', 1) || occurs_times(&d, '.', 2) || occurs_times(&d, '.', 3) {
        dotted_digits(&d)
    } else {
        false
    }
}

/// The capital of a letter that occurs in a scheme; any other character
/// itself.
pub open spec fn scheme_capital(c: char) -> char {
    if c == 'h' {
        'H'
    } else if c == 't' {
        'T'
    } else if c == 'p' {
        'P'
    } else if c == 's' {
        'S'
    } else if c == 'f' {
        'F'
    } else {
        c
    }
}

/// Whether a text begins with the characters of `scheme`, where the capital
/// of a letter stands for the letter.
pub open spec fn begins_with_scheme(s: Seq<char>, scheme: Seq<char>) -> bool {
    &&& scheme.len() <= s.len()
    &&& forall|i: int|
        0 <= i < scheme.len() ==> (#[trigger] s[i]) == scheme[i] || s[i] == scheme_capital(
            scheme[i],
        )
}

/// Whether a text begins with `prefix`.
pub open spec fn begins_with(s: Seq<char>, prefix: Seq<char>) -> bool {
    prefix.len() <= s.len() && s.take(prefix.len() as int) == prefix
}

/// Whether what follows a scheme of the given length names a host: it holds
/// a dot or begins with `localhost`.
pub open spec fn names_host(s: Seq<char>, scheme_len: int) -> bool {
    let rest = s.skip(scheme_len);
    rest.contains('.') || begins_with(rest, "localhost"@)
}

/// Whether a text begins with the scheme, in small or capital letters, and
/// goes on with the name of a host.
pub open spec fn is_address_with(s: Seq<char>, scheme: Seq<char>) -> bool {
    begins_with_scheme(s, scheme) && names_host(s, scheme.len() as int)
}

/// Whether a text has the shape of an address of the web: 7 to 2000 bytes
/// long, beginning with `http://`, `https://`, `ftp://` or `ftps://` in
/// small or capital letters, and going on with something that holds a dot
/// or begins with `localhost`.
pub open spec fn is_url_shaped(s: Seq<char>) -> bool {
    &&& 7 <= byte_len(s) <= 2000
    &&& (is_address_with(s, "http://"@) || is_address_with(s, "https://"@) || is_address_with(
        s,
        "ftp://"@,
    ) || is_address_with(s, "ftps://"@))
}

fn capital_in_scheme(c: char) -> (u: char)
    ensures
        u == scheme_capital(c),
{
    if c == 'h' {
        'H'
    } else if c == 't' {
        'T'
    } else if c == 'p' {
        'P'
    } else if c == 's' {
        'S'
    } else if c == 'f' {
        'F'
    } else {
        c
    }
}

fn scheme_begins(s: &Vec<char>, scheme: &Vec<char>) -> (b: bool)
    ensures
        b == begins_with_scheme(s@, scheme@),
{
    if scheme.len() > s.len() {
        return false;
    }
    let mut i: usize = 0;
    while i < scheme.len()
        invariant
            i <= scheme.len(),
            scheme.len() <= s.len(),
            forall|j: int|
                0 <= j < i ==> (#[trigger] s@[j]) == scheme@[j] || s@[j] == scheme_capital(
                    scheme@[j],
                ),
        decreases scheme.len() - i,
    {
        if s[i] != scheme[i] && s[i] != capital_in_scheme(scheme[i]) {
            return false;
        }
        i = i + 1;
    }
    true
}

fn prefix_at(s: &Vec<char>, from: usize, prefix: &Vec<char>) -> (b: bool)
    requires
        from <= s.len(),
    ensures
        b == begins_with(s@.skip(from as int), prefix@),
{
    if prefix.len() > s.len() - from {
        return false;
    }
    let ghost rest = s@.skip(from as int);
    let mut i: usize = 0;
    while i < prefix.len()
        invariant
            i <= prefix.len(),
            from + prefix.len() <= s.len(),
            rest == s@.skip(from as int),
            forall|j: int| 0 <= j < i ==> rest[j] == prefix@[j],
        decreases prefix.len() - i,
    {
        assert(rest[i as int] == s@[from + i]);
        if s[from + i] != prefix[i] {
            assert(rest.take(prefix.len() as int)[i as int] == rest[i as int]);
            return false;
        }
        i = i + 1;
    }
    assert(rest.take(prefix.len() as int) =~= prefix@);
    true
}

fn char_from(s: &Vec<char>, from: usize, c: char) -> (b: bool)
    requires
        from <= s.len(),
    ensures
        b == s@.skip(from as int).contains(c),
{
    let ghost rest = s@.skip(from as int);
    let mut i: usize = from;
    while i < s.len()
        invariant
            from <= i <= s.len(),
            rest == s@.skip(from as int),
            forall|j: int| 0 <= j < i - from ==> rest[j] != c,
        decreases s.len() - i,
    {
        assert(rest[i - from] == s@[i as int]);
        if s[i] == c {
            return true;
        }
        i = i + 1;
    }
    false
}

fn address_with(s: &Vec<char>, scheme: &str) -> (b: bool)
    ensures
        b == is_address_with(s@, scheme@),
{
    let scheme_chars = chars_of(scheme);
    if !scheme_begins(s, &scheme_chars) {
        return false;
    }
    if char_from(s, scheme_chars.len(), '.') {
        return true;
    }
    let host = chars_of("localhost");
    prefix_at(s, scheme_chars.len(), &host)
}

/// Whether a text has the shape of an address of the web.
pub fn is_url_format(s: &Vec<char>) -> (b: bool)
    ensures
        b == is_url_shaped(s@),
{
    let len = capped_byte_len(s);
    if len < 7 || len > 2000 {
        return false;
    }
    address_with(s, "http://") || address_with(s, "https://") || address_with(s, "ftp://")
        || address_with(s, "ftps://")
}

/// Whether a character is a letter of the English alphabet.
pub open spec fn is_letter(c: char) -> bool {
    ('a' <= c && c <= 'z') || ('A' <= c && c <= 'Z')
}

/// The number of letters of the English alphabet in a text.
pub open spec fn letter_count(s: Seq<char>) -> nat
    decreases s.len(),
{
    if s.len() == 0 {
        0
    } else if is_letter(s.last()) {
        letter_count(s.drop_last()) + 1
    } else {
        letter_count(s.drop_last())
    }
}

/// The number of digits in a text.
pub open spec fn digit_count(s: Seq<char>) -> nat
    decreases s.len(),
{
    if s.len() == 0 {
        0
    } else if is_digit(s.last()) {
        digit_count(s.drop_last()) + 1
    } else {
        digit_count(s.drop_last())
    }
}

/// Whether a text is a plain field name: it holds a letter, has the shape
/// neither of a timestamp nor of a version number, holds no more digits than
/// letters, and consists of letters, underscores and hyphens only.
pub open spec fn is_pure_field(s: Seq<char>) -> bool {
    &&& letter_count(s) > 0
    &&& !is_time_shaped(s)
    &&& !is_version_shaped(s)
    &&& digit_count(s) <= letter_count(s)
    &&& forall|i: int|
        0 <= i < s.len() ==> is_letter(#[trigger] s[i]) || s[i] == '_' || s[i] == '-'
}

fn letter(c: char) -> (b: bool)
    ensures
        b == is_letter(c),
{
    ('a' <= c && c <= 'z') || ('A' <= c && c <= 'Z')
}

/// Whether a text is a plain field name.
pub fn is_pure_english_field(s: &Vec<char>) -> (b: bool)
    ensures
        b == is_pure_field(s@),
{
    let mut letters: usize = 0;
    let mut digits: usize = 0;
    let mut plain = true;
    let mut i: usize = 0;
    while i < s.len()
        invariant
            i <= s.len(),
            letters <= i,
            digits <= i,
            letters == letter_count(s@.take(i as int)),
            digits == digit_count(s@.take(i as int)),
            plain == forall|j: int|
                0 <= j < i ==> is_letter(#[trigger] s@[j]) || s@[j] == '_' || s@[j] == '-',
        decreases s.len() - i,
    {
        proof {
            let next = s@.take(i + 1);
            assert(next.drop_last() =~= s@.take(i as int));
            assert(next.last() == s@[i as int]);
        }
        let c = s[i];
        if letter(c) {
            letters = letters + 1;
        } else if digit_char_test(c) {
            digits = digits + 1;
        }
        if !(letter(c) || c == '_' || c == '-') {
            plain = false;
        }
        i = i + 1;
    }
    assert(s@.take(s.len() as int) =~= s@);
    if letters == 0 {
        return false;
    }
    if is_time_format(s) {
        return false;
    }
    if is_version_format(s) {
        return false;
    }
    if digits > letters {
        return false;
    }
    plain
}

/// Whether a value is a scalar: a string, a number, a boolean or null.
pub open spec fn is_leaf(j: Json) -> bool {
    j is String || j is Number || j is Bool || j is Null
}

/// What a member of an object offers as a candidate. A member whose value is
/// a string offers something if its key is not blank and the value, trimmed,
/// has the shape neither of a timestamp nor of a version number: the value
/// itself, trimmed, if that has the shape of an address of the web, and
/// otherwise the key, trimmed. In leaf-only mode the value must be a scalar,
/// which a string is.
pub open spec fn offered(key: Seq<char>, value: Json, leaf_only: bool) -> Option<Seq<char>> {
    match value {
        Json::String(text) => if (!leaf_only || is_leaf(value)) && trimmed(key).len() > 0
            && !is_time_shaped(trimmed(text)) && !is_version_shaped(trimmed(text)) {
            if is_url_shaped(trimmed(text)) {
                Some(trimmed(text))
            } else {
                Some(trimmed(key))
            }
        } else {
            None
        },
        _ => None,
    }
}

/// The candidates that a document offers: what each member of each object in
/// it offers, at every level.
pub open spec fn collected(j: Json, leaf_only: bool) -> Set<Seq<char>>
    decreases j,
{
    match j {
        Json::Array(items) => collected_items(items, leaf_only),
        Json::Object(members) => collected_members(members, leaf_only),
        _ => Set::empty(),
    }
}

/// The candidates that the items of an array offer.
pub open spec fn collected_items(items: Seq<Json>, leaf_only: bool) -> Set<Seq<char>>
    decreases items,
{
    if items.len() == 0 {
        Set::empty()
    } else {
        collected_items(items.drop_last(), leaf_only).union(collected(items.last(), leaf_only))
    }
}

/// The candidates that the members of an object offer, themselves and
/// through their values.
pub open spec fn collected_members(members: Seq<(Seq<char>, Json)>, leaf_only: bool) -> Set<
    Seq<char>,
>
    decreases members,
{
    if members.len() == 0 {
        Set::empty()
    } else {
        let last = members.last();
        let own = match offered(last.0, last.1, leaf_only) {
            Some(c) => set![c],
            None => Set::empty(),
        };
        collected_members(members.drop_last(), leaf_only).union(own).union(
            collected(last.1, leaf_only),
        )
    }
}

/// Whether a candidate is kept: trimmed, it is 2 to 50 bytes long and a
/// plain field name.
pub open spec fn is_kept(c: Seq<char>) -> bool {
    2 <= byte_len(trimmed(c)) <= 50 && is_pure_field(trimmed(c))
}

/// Whether a candidate is kept.
pub fn keeps(c: &Vec<char>) -> (b: bool)
    ensures
        b == is_kept(c@),
{
    let t = trim_chars(c);
    let len = capped_byte_len(&t);
    if len < 2 || len > 50 {
        return false;
    }
    is_pure_english_field(&t)
}

/// What a member of an object offers as a candidate, if its value is the
/// string `text`.
pub fn offer(key: &str, text: &str) -> (r: Option<Vec<char>>)
    ensures
        r is Some <==> offered(key@, Json::String(text@), false) is Some,
        r is Some ==> offered(key@, Json::String(text@), false) == Some(r->Some_0@),
        forall|leaf_only: bool|
            (#[trigger] offered(key@, Json::String(text@), leaf_only)) == offered(
                key@,
                Json::String(text@),
                false,
            ),
{
    let key_chars = chars_of(key);
    let name = trim_chars(&key_chars);
    if name.len() == 0 {
        return None;
    }
    let text_chars = chars_of(text);
    let value = trim_chars(&text_chars);
    if is_time_format(&value) || is_version_format(&value) {
        return None;
    }
    if is_url_format(&value) {
        Some(value)
    } else {
        Some(name)
    }
}

/// Whether a set of found names holds, beside what it held before, exactly
/// the kept candidates among `more`.
pub open spec fn found_more(
    before: Map<Seq<char>, ()>,
    after: Map<Seq<char>, ()>,
    more: Set<Seq<char>>,
) -> bool {
    forall|c: Seq<char>| #[trigger]
        after.dom().contains(c) <==> before.dom().contains(c) || (more.contains(c) && is_kept(c))
}

/// The candidates that the documents on a stack offer.
spec fn pending_offers(stack: Seq<&serde_json::Value>, leaf_only: bool) -> Set<Seq<char>>
    decreases stack.len(),
{
    if stack.len() == 0 {
        Set::empty()
    } else {
        pending_offers(stack.drop_last(), leaf_only).union(
            collected(json_of(*stack.last()), leaf_only),
        )
    }
}

/// The number of nodes of the documents on a stack.
spec fn pending_nodes(stack: Seq<&serde_json::Value>) -> nat
    decreases stack.len(),
{
    if stack.len() == 0 {
        0
    } else {
        pending_nodes(stack.drop_last()) + 1 + descendant_count(json_of(*stack.last()))
    }
}

/// Whether the names found, with the kept candidates among `rest`, are what
/// was found before with the kept candidates among `all`.
spec fn on_the_way(
    before: Map<Seq<char>, ()>,
    found: Map<Seq<char>, ()>,
    rest: Set<Seq<char>>,
    all: Set<Seq<char>>,
) -> bool {
    forall|c: Seq<char>| #[trigger]
        wanted(before, all, c) <==> found.dom().contains(c) || (rest.contains(c) && is_kept(c))
}

/// Whether a candidate was found before or is a kept candidate among `all`.
spec fn wanted(before: Map<Seq<char>, ()>, all: Set<Seq<char>>, c: Seq<char>) -> bool {
    before.dom().contains(c) || (all.contains(c) && is_kept(c))
}

/// Puts a document on the stack.
fn push_document<'a>(
    stack: &mut Vec<&'a serde_json::Value>,
    v: &'a serde_json::Value,
    leaf_nodes_only: bool,
)
    ensures
        final(stack)@ == old(stack)@.push(v),
        pending_offers(final(stack)@, leaf_nodes_only) == pending_offers(
            old(stack)@,
            leaf_nodes_only,
        ).union(collected(json_of(*v), leaf_nodes_only)),
        pending_nodes(final(stack)@) == pending_nodes(old(stack)@) + 1 + descendant_count(
            json_of(*v),
        ),
{
    stack.push(v);
    assert(stack@.drop_last() =~= old(stack)@);
}

/// Adds the kept candidates that a document offers to the names found.
///
/// The document is walked with a stack of its own, so that its depth is not
/// bounded by the depth of the call stack.
pub fn gather(v: &serde_json::Value, found: &mut TextMap<()>, leaf_nodes_only: bool)
    requires
        old(found).wf(),
    ensures
        final(found).wf(),
        found_more(old(found)@, final(found)@, collected(json_of(*v), leaf_nodes_only)),
{
    let ghost before = found@;
    let ghost all = collected(json_of(*v), leaf_nodes_only);
    let mut stack: Vec<&serde_json::Value> = Vec::new();
    push_document(&mut stack, v, leaf_nodes_only);
    assert(pending_offers(stack@, leaf_nodes_only) =~= all);
    while stack.len() > 0
        invariant
            found.wf(),
            on_the_way(before, found@, pending_offers(stack@, leaf_nodes_only), all),
        decreases pending_nodes(stack@),
    {
        let ghost rest = stack@.drop_last();
        let ghost below = pending_offers(rest, leaf_nodes_only);
        let ghost weight = pending_nodes(rest);
        let ghost start = found@;
        let top = stack.pop().unwrap();
        assert(stack@ == rest);
        match shape_of(top) {
            Shape::Array(items) => {
                let ghost models = models_of(items@);
                let mut i: usize = 0;
                while i < items.len()
                    invariant
                        i <= items.len(),
                        models == models_of(items@),
                        found@ == start,
                        pending_offers(stack@, leaf_nodes_only) == below.union(
                            collected_items(models.take(i as int), leaf_nodes_only),
                        ),
                        pending_nodes(stack@) == weight + items_total(models.take(i as int)),
                    decreases items.len() - i,
                {
                    proof {
                        let next = models.take(i + 1);
                        assert(next.drop_last() =~= models.take(i as int));
                        assert(next.last() == json_of(items@[i as int]));
                    }
                    push_document(&mut stack, &items[i], leaf_nodes_only);
                    assert(pending_offers(stack@, leaf_nodes_only) =~= below.union(
                        collected_items(models.take(i + 1), leaf_nodes_only),
                    ));
                    i = i + 1;
                }
                assert(models.take(items.len() as int) =~= models);
            },
            Shape::Object(entries) => {
                let ghost members = members_of(entries@);
                let mut i: usize = 0;
                while i < entries.len()
                    invariant
                        i <= entries.len(),
                        members == members_of(entries@),
                        found.wf(),
                        on_the_way(
                            start,
                            found@,
                            pending_offers(stack@, leaf_nodes_only),
                            below.union(collected_members(members.take(i as int), leaf_nodes_only)),
                        ),
                        pending_nodes(stack@) == weight + members_total(members.take(i as int)),
                    decreases entries.len() - i,
                {
                    let ghost offers = pending_offers(stack@, leaf_nodes_only);
                    let ghost so_far = found@;
                    let ghost earlier = below.union(
                        collected_members(members.take(i as int), leaf_nodes_only),
                    );
                    proof {
                        let next = members.take(i + 1);
                        assert(next.drop_last() =~= members.take(i as int));
                        assert(next.last() == (entries@[i as int].0@, json_of(*entries@[i as int].1)));
                    }
                    let value = entries[i].1;
                    match shape_of(value) {
                        Shape::Text(text) => {
                            match offer(entries[i].0, text) {
                                Some(candidate) => {
                                    if keeps(&candidate) {
                                        found.insert(candidate, ());
                                    }
                                },
                                None => {},
                            }
                        },
                        _ => {},
                    }
                    push_document(&mut stack, value, leaf_nodes_only);
                    proof {
                        let own = match offered(
                            entries@[i as int].0@,
                            json_of(*value),
                            leaf_nodes_only,
                        ) {
                            Some(c) => set![c],
                            None => Set::empty(),
                        };
                        let later = below.union(
                            collected_members(members.take(i + 1), leaf_nodes_only),
                        );
                        assert forall|c: Seq<char>| #[trigger]
                            wanted(start, later, c) <==> found@.dom().contains(c) || (
                            pending_offers(stack@, leaf_nodes_only).contains(c) && is_kept(
                                c,
                            )) by {
                            assert(wanted(start, earlier, c) <==> so_far.dom().contains(c) || (
                            offers.contains(c) && is_kept(c)));
                            assert(later.contains(c) <==> earlier.contains(c) || own.contains(c)
                                || collected(json_of(*value), leaf_nodes_only).contains(c));
                        }
                    }
                    i = i + 1;
                }
                assert(members.take(entries.len() as int) =~= members);
            },
            _ => {
                assert(below.union(collected(json_of(*top), leaf_nodes_only)) =~= below);
            },
        }
        proof {
            let taken = below.union(collected(json_of(*top), leaf_nodes_only));
            assert(pending_offers(rest.push(top), leaf_nodes_only) == taken) by {
                assert(rest.push(top).drop_last() =~= rest);
            }
            assert(pending_nodes(rest.push(top)) == weight + 1 + descendant_count(json_of(*top)))
                by {
                assert(rest.push(top).drop_last() =~= rest);
            }
            assert forall|c: Seq<char>| #[trigger]
                wanted(before, all, c) <==> found@.dom().contains(c) || (pending_offers(
                    stack@,
                    leaf_nodes_only,
                ).contains(c) && is_kept(c)) by {
                assert(wanted(before, all, c) <==> start.dom().contains(c) || (taken.contains(c)
                    && is_kept(c)));
                assert(wanted(start, taken, c) <==> found@.dom().contains(c) || (pending_offers(
                    stack@,
                    leaf_nodes_only,
                ).contains(c) && is_kept(c)));
            }
        }
    }
    assert(pending_offers(stack@, leaf_nodes_only) =~= Set::<Seq<char>>::empty());
    assert forall|c: Seq<char>| #[trigger]
        found@.dom().contains(c) <==> before.dom().contains(c) || (all.contains(c) && is_kept(
            c,
        )) by {
        assert(wanted(before, all, c) <==> found@.dom().contains(c) || (pending_offers(
            stack@,
            leaf_nodes_only,
        ).contains(c) && is_kept(c)));
    }
}

/// The most names that a detection returns.
pub const FIELD_LIMIT: usize = 20;

/// Whether `all` lists, in the strict order of strings, exactly the kept
/// candidates that a document offers.
pub open spec fn is_field_listing(all: Seq<Seq<char>>, j: Json, leaf_only: bool) -> bool {
    &&& strictly_sorted(all)
    &&& forall|c: Seq<char>| #[trigger]
        all.contains(c) <==> collected(j, leaf_only).contains(c) && is_kept(c)
}

/// A document has one listing of its fields only.
pub proof fn lemma_field_listing_unique(
    a: Seq<Seq<char>>,
    b: Seq<Seq<char>>,
    j: Json,
    leaf_only: bool,
)
    requires
        is_field_listing(a, j, leaf_only),
        is_field_listing(b, j, leaf_only),
    ensures
        a == b,
{
    let la = a.map_values(|k: Seq<char>| (k, ()));
    let lb = b.map_values(|k: Seq<char>| (k, ()));
    assert forall|k: Seq<char>| map_of(la).dom().contains(k) <==> map_of(lb).dom().contains(
        k,
    ) by {
        if map_of(la).dom().contains(k) {
            let i = choose|i: int| 0 <= i < la.len() && (#[trigger] la[i]).0 == k;
            assert(a[i] == k);
            assert(a.contains(k));
            assert(b.contains(k));
            let m = choose|m: int| 0 <= m < b.len() && b[m] == k;
            assert(lb[m].0 == k);
        }
        if map_of(lb).dom().contains(k) {
            let i = choose|i: int| 0 <= i < lb.len() && (#[trigger] lb[i]).0 == k;
            assert(b[i] == k);
            assert(b.contains(k));
            assert(a.contains(k));
            let m = choose|m: int| 0 <= m < a.len() && a[m] == k;
            assert(la[m].0 == k);
        }
    }
    assert(map_of(la) =~= map_of(lb));
    lemma_listing_unique(la, lb);
    assert forall|i: int| 0 <= i < a.len() implies a[i] == b[i] by {
        assert(la[i].0 == a[i]);
        assert(lb[i].0 == b[i]);
    }
    assert(a.len() == la.len());
    assert(b.len() == lb.len());
    assert(a =~= b);
}

/// The fields of a document: the kept candidates that it offers, each once,
/// in the strict order of strings.
pub open spec fn fields_of(j: Json, leaf_only: bool) -> Seq<Seq<char>> {
    choose|all: Seq<Seq<char>>| is_field_listing(all, j, leaf_only)
}

/// The first `FIELD_LIMIT` fields of a document, or all of them if there
/// are fewer.
pub open spec fn first_fields(j: Json, leaf_only: bool) -> Seq<Seq<char>> {
    let all = fields_of(j, leaf_only);
    if all.len() <= FIELD_LIMIT {
        all
    } else {
        all.take(FIELD_LIMIT as int)
    }
}

/// The candidate field names of a document: the kept candidates that it
/// offers, each once, in the order of strings, and of these the first
/// `FIELD_LIMIT` at most.
pub fn detect_fields(doc: &serde_json::Value, leaf_nodes_only: bool) -> (fields: Vec<String>)
    ensures
        texts_of(fields@) == first_fields(json_of(*doc), leaf_nodes_only),
        is_field_listing(
            fields_of(json_of(*doc), leaf_nodes_only),
            json_of(*doc),
            leaf_nodes_only,
        ),
{
    let mut found: TextMap<()> = TextMap::new();
    gather(doc, &mut found, leaf_nodes_only);
    let ghost all = key_seq(found.listing());
    proof {
        assert forall|i: int, j: int| 0 <= i < j < all.len() implies crate::text::lex_lt(
            #[trigger] all[i],
            #[trigger] all[j],
        ) by {
            assert(all[i] == found.listing()[i].0);
            assert(all[j] == found.listing()[j].0);
        }
        assert forall|c: Seq<char>| #[trigger]
            all.contains(c) <==> collected(json_of(*doc), leaf_nodes_only).contains(c) && is_kept(
                c,
            ) by {
            if all.contains(c) {
                let i = choose|i: int| 0 <= i < all.len() && all[i] == c;
                assert(found.listing()[i].0 == c);
                assert(found@.dom().contains(c));
            }
            if found@.dom().contains(c) {
                let i = choose|i: int|
                    0 <= i < found.listing().len() && (#[trigger] found.listing()[i]).0 == c;
                assert(all[i] == c);
            }
        }
    }
    assert(is_field_listing(all, json_of(*doc), leaf_nodes_only));
    proof {
        lemma_field_listing_unique(
            fields_of(json_of(*doc), leaf_nodes_only),
            all,
            json_of(*doc),
            leaf_nodes_only,
        );
    }
    let count = if found.len() <= FIELD_LIMIT {
        found.len()
    } else {
        FIELD_LIMIT
    };
    let mut fields: Vec<String> = Vec::new();
    let mut k: usize = 0;
    while k < count
        invariant
            k <= count <= found.entries.len(),
            all == key_seq(found.listing()),
            is_field_listing(all, json_of(*doc), leaf_nodes_only),
            all == fields_of(json_of(*doc), leaf_nodes_only),
            count == (if all.len() <= FIELD_LIMIT {
                all.len() as int
            } else {
                FIELD_LIMIT as int
            }),
            texts_of(fields@) == all.take(k as int),
        decreases count - k,
    {
        assert(all[k as int] == found.entries@[k as int].0@);
        let ghost before = texts_of(fields@);
        fields.push(string_of(&found.entries[k].0));
        assert(texts_of(fields@) =~= before.push(all[k as int]));
        assert(all.take(k + 1) =~= all.take(k as int).push(all[k as int]));
        k = k + 1;
    }
    assert(all.take(all.len() as int) =~= all);
    fields
}

} // verus!

//! Topic names, topic filters and shared subscriptions.

use crate::error::MqttError;
use crate::error::Result;
use crate::text::{byte_len, chars_of, string_of};
use vstd::prelude::*;

verus! {

/// The longest topic name or filter, in bytes.
pub const MAX_TOPIC_BYTES: usize = 65535;

/// The parts of `s` between the occurrences of `separator`; there is always at least one.
pub open spec fn split(s: Seq<char>, separator: char) -> Seq<Seq<char>>
    decreases s.len(),
{
    if s.len() == 0 {
        seq![Seq::<char>::empty()]
    } else {
        let before = split(s.drop_last(), separator);
        if s.last() == separator {
            before.push(Seq::<char>::empty())
        } else {
            before.update(before.len() - 1, before.last().push(s.last()))
        }
    }
}

/// The levels of a topic name or filter.
pub open spec fn levels(s: Seq<char>) -> Seq<Seq<char>> {
    split(s, '/')
}

/// Whether the levels of a topic name match the levels of a filter: `+` stands for one level,
/// a final `#` for all that remain, and anything else for itself.
pub open spec fn levels_match(topic: Seq<Seq<char>>, filter: Seq<Seq<char>>) -> bool
    decreases filter.len(),
{
    if filter.len() == 0 {
        topic.len() == 0
    } else if filter[0] == seq!['#'] {
        filter.len() == 1
    } else {
        &&& topic.len() > 0
        &&& filter[0] == seq!['+'] || filter[0] == topic[0]
        &&& levels_match(topic.drop_first(), filter.drop_first())
    }
}

/// Whether a filter begins with a wildcard level.
pub open spec fn leading_wildcard(filter: Seq<Seq<char>>) -> bool {
    filter.len() > 0 && (filter[0] == seq!['#'] || filter[0] == seq!['+'])
}

/// Whether a topic name matches a filter. Topics whose name begins with `$` are not matched by a
/// filter that begins with a wildcard.
pub open spec fn topic_matches(topic: Seq<char>, filter: Seq<char>) -> bool {
    &&& !(topic.len() > 0 && topic[0] == '$' && leading_wildcard(levels(filter)))
    &&& levels_match(levels(topic), levels(filter))
}

/// The first place at which `c` stands in `s`, or the length of `s` where it does not.
pub open spec fn find(s: Seq<char>, c: char) -> int
    decreases s.len(),
{
    if s.len() == 0 || s[0] == c {
        0
    } else {
        1 + find(s.drop_first(), c)
    }
}

/// The text that marks a shared subscription.
pub open spec fn share_prefix() -> Seq<char> {
    seq!['$', 's', 'h', 'a', 'r', 'e', '/']
}

/// Whether a filter has the form `$share/{group}/{filter}`.
pub open spec fn is_shared(filter: Seq<char>) -> bool {
    &&& share_prefix().is_prefix_of(filter)
    &&& filter.skip(7).contains('/')
}

/// The group of a shared subscription.
pub open spec fn share_group(filter: Seq<char>) -> Option<Seq<char>> {
    if is_shared(filter) {
        Some(filter.skip(7).take(find(filter.skip(7), '/')))
    } else {
        None
    }
}

/// The filter without the prefix of a shared subscription.
pub open spec fn unshared(filter: Seq<char>) -> Seq<char> {
    if is_shared(filter) {
        filter.skip(7).skip(find(filter.skip(7), '/') + 1)
    } else {
        filter
    }
}

/// Whether a filter holds a wildcard character.
pub open spec fn has_wildcard(filter: Seq<char>) -> bool {
    filter.contains('+') || filter.contains('#')
}

/// A topic name: not empty, at most 65535 bytes, without NUL and without wildcards.
pub open spec fn valid_topic_name(topic: Seq<char>) -> bool {
    &&& topic.len() > 0
    &&& crate::text::utf8(topic).len() <= MAX_TOPIC_BYTES
    &&& !topic.contains('\0')
    &&& !has_wildcard(topic)
}

/// A level of a filter at place `i` of `n`: a wildcard stands alone, and `#` stands last.
pub open spec fn valid_level(level: Seq<char>, i: int, n: int) -> bool {
    &&& level.contains('+') ==> level.len() == 1
    &&& level.contains('#') ==> level.len() == 1 && i == n - 1
}

/// A topic filter: not empty, at most 65535 bytes, without NUL, wildcards only as whole levels.
pub open spec fn valid_topic_filter(filter: Seq<char>) -> bool {
    &&& filter.len() > 0
    &&& crate::text::utf8(filter).len() <= MAX_TOPIC_BYTES
    &&& !filter.contains('\0')
    &&& forall|i: int|
        #![trigger levels(filter)[i]]
        0 <= i < levels(filter).len() ==> valid_level(
            levels(filter)[i],
            i,
            levels(filter).len() as int,
        )
}

/// A filter that may be subscribed to: a topic filter or, behind `$share/`, a group name that is
/// not empty and holds no wildcard, and a topic filter.
pub open spec fn valid_subscription_filter(filter: Seq<char>) -> bool {
    if share_prefix().is_prefix_of(filter) {
        match share_group(filter) {
            Some(group) => {
                &&& group.len() > 0
                &&& !has_wildcard(group)
                &&& crate::text::utf8(filter).len() <= MAX_TOPIC_BYTES
                &&& !filter.contains('\0')
                &&& valid_topic_filter(unshared(filter))
            },
            None => false,
        }
    } else {
        valid_topic_filter(filter)
    }
}

/// The views of a list of character lists.
pub open spec fn char_lists(v: Seq<Vec<char>>) -> Seq<Seq<char>> {
    v.map_values(|part: Vec<char>| part@)
}

fn split_chars(s: &[char], separator: char) -> (r: Vec<Vec<char>>)
    ensures
        char_lists(r@) == split(s@, separator),
        r@.len() > 0,
{
    let mut done: Vec<Vec<char>> = Vec::new();
    let mut current: Vec<char> = Vec::new();
    let mut i: usize = 0;
    assert(s@.take(0) =~= Seq::<char>::empty());
    assert(char_lists(done@).push(current@) =~= split(s@.take(0), separator));
    while i < s.len()
        invariant
            i <= s@.len(),
            char_lists(done@).push(current@) == split(s@.take(i as int), separator),
        decreases s@.len() - i,
    {
        let c = s[i];
        let ghost parts = char_lists(done@).push(current@);
        assert(s@.take(i + 1).drop_last() =~= s@.take(i as int));
        assert(s@.take(i + 1).last() == c);
        if c == separator {
            done.push(current);
            current = Vec::new();
            assert(char_lists(done@).push(current@) =~= parts.push(Seq::<char>::empty()));
        } else {
            current.push(c);
            assert(char_lists(done@).push(current@) =~= parts.update(
                parts.len() - 1,
                parts.last().push(c),
            ));
        }
        i = i + 1;
    }
    assert(s@.take(s@.len() as int) =~= s@);
    let ghost before = char_lists(done@).push(current@);
    done.push(current);
    assert(char_lists(done@) =~= before);
    done
}

fn same_chars(a: &Vec<char>, b: &Vec<char>) -> (same: bool)
    ensures
        same == (a@ == b@),
{
    if a.len() != b.len() {
        return false;
    }
    let mut i: usize = 0;
    while i < a.len()
        invariant
            i <= a@.len(),
            a@.len() == b@.len(),
            forall|j: int| 0 <= j < i ==> a@[j] == b@[j],
        decreases a@.len() - i,
    {
        if a[i] != b[i] {
            assert(a@[i as int] != b@[i as int]);
            return false;
        }
        i = i + 1;
    }
    assert(a@ =~= b@);
    true
}

fn is_lone(level: &Vec<char>, c: char) -> (r: bool)
    ensures
        r == (level@ == seq![c]),
{
    let r = level.len() == 1 && level[0] == c;
    proof {
        if r {
            assert(level@ =~= seq![c]);
        }
    }
    r
}

fn has_char(s: &[char], c: char) -> (found: bool)
    ensures
        found == s@.contains(c),
{
    let mut i: usize = 0;
    while i < s.len()
        invariant
            i <= s@.len(),
            forall|j: int| 0 <= j < i ==> s@[j] != c,
        decreases s@.len() - i,
    {
        if s[i] == c {
            assert(s@[i as int] == c);
            return true;
        }
        i = i + 1;
    }
    false
}

fn match_levels(topic: &Vec<Vec<char>>, filter: &Vec<Vec<char>>) -> (r: bool)
    ensures
        r == levels_match(char_lists(topic@), char_lists(filter@)),
{
    let ghost t = char_lists(topic@);
    let ghost f = char_lists(filter@);
    let mut i: usize = 0;
    assert(t.skip(0) =~= t && f.skip(0) =~= f);
    while i < filter.len()
        invariant
            i <= filter@.len(),
            i <= topic@.len(),
            t == char_lists(topic@),
            f == char_lists(filter@),
            levels_match(t, f) == levels_match(t.skip(i as int), f.skip(i as int)),
        decreases filter@.len() - i,
    {
        assert(f.skip(i as int)[0] == filter@[i as int]@);
        if is_lone(&filter[i], '#') {
            return i + 1 == filter.len();
        }
        if i >= topic.len() {
            return false;
        }
        assert(t.skip(i as int)[0] == topic@[i as int]@);
        if !is_lone(&filter[i], '+') && !same_chars(&filter[i], &topic[i]) {
            return false;
        }
        assert(t.skip(i as int).drop_first() =~= t.skip(i + 1));
        assert(f.skip(i as int).drop_first() =~= f.skip(i + 1));
        i = i + 1;
    }
    topic.len() == filter.len()
}

/// Whether a topic name matches a filter.
pub fn topic_matches_filter(topic: &str, filter: &str) -> (r: bool)
    ensures
        r == topic_matches(topic@, filter@),
{
    let topic_chars = chars_of(topic);
    let filter_chars = chars_of(filter);
    let topic_levels = split_chars(topic_chars.as_slice(), '/');
    let filter_levels = split_chars(filter_chars.as_slice(), '/');
    assert(char_lists(filter_levels@)[0] == filter_levels@[0]@);
    if topic_chars.len() > 0 && topic_chars[0] == '$' && (is_lone(&filter_levels[0], '#')
        || is_lone(&filter_levels[0], '+')) {
        return false;
    }
    match_levels(&topic_levels, &filter_levels)
}

/// The first place at which `c` stands in `s`.
pub fn find_char(s: &[char], c: char) -> (r: usize)
    ensures
        r == find(s@, c),
        r <= s@.len(),
        r < s@.len() <==> s@.contains(c),
        r < s@.len() ==> s@[r as int] == c,
{
    let mut i: usize = 0;
    assert(s@.skip(0) =~= s@);
    while i < s.len()
        invariant
            i <= s@.len(),
            find(s@, c) == i + find(s@.skip(i as int), c),
            forall|j: int| 0 <= j < i ==> s@[j] != c,
        decreases s@.len() - i,
    {
        if s[i] == c {
            assert(s@.contains(c));
            return i;
        }
        assert(s@.skip(i as int).drop_first() =~= s@.skip(i + 1));
        i = i + 1;
    }
    i
}

fn starts_with_share(s: &[char]) -> (r: bool)
    ensures
        r == share_prefix().is_prefix_of(s@),
{
    if s.len() < 7 {
        return false;
    }
    let r = s[0] == '$' && s[1] == 's' && s[2] == 'h' && s[3] == 'a' && s[4] == 'r' && s[5] == 'e'
        && s[6] == '/';
    proof {
        let head = s@.subrange(0, 7);
        if r {
            assert(head =~= share_prefix());
        } else {
            assert(head[0] == s@[0] && head[1] == s@[1] && head[2] == s@[2] && head[3] == s@[3]
                && head[4] == s@[4] && head[5] == s@[5] && head[6] == s@[6]);
        }
    }
    r
}

/// A copy of a part of `s`.
pub fn sub_chars(s: &[char], from: usize, to: usize) -> (r: Vec<char>)
    requires
        from <= to <= s@.len(),
    ensures
        r@ == s@.subrange(from as int, to as int),
{
    let mut out: Vec<char> = Vec::new();
    let mut i: usize = from;
    while i < to
        invariant
            from <= i <= to <= s@.len(),
            out@ == s@.subrange(from as int, i as int),
        decreases to - i,
    {
        out.push(s[i]);
        i = i + 1;
        assert(out@ =~= s@.subrange(from as int, i as int));
    }
    out
}

/// Splits a filter into the filter proper and, for a shared subscription, the group.
pub fn parse_shared_subscription(filter: &str) -> (r: (String, Option<String>))
    ensures
        r.0@ == unshared(filter@),
        match r.1 {
            Some(group) => share_group(filter@) == Some(group@),
            None => share_group(filter@) is None,
        },
{
    let chars = chars_of(filter);
    if starts_with_share(chars.as_slice()) {
        let rest = sub_chars(chars.as_slice(), 7, chars.len());
        assert(rest@ =~= filter@.skip(7));
        let at = find_char(rest.as_slice(), '/');
        if at < rest.len() {
            let group = sub_chars(rest.as_slice(), 0, at);
            let actual = sub_chars(rest.as_slice(), at + 1, rest.len());
            assert(group@ =~= rest@.take(at as int));
            assert(actual@ =~= rest@.skip(at + 1));
            return (string_of(actual.as_slice()), Some(string_of(group.as_slice())));
        }
    }
    (filter.to_owned(), None)
}

/// The filter without the prefix of a shared subscription.
pub fn strip_shared_subscription_prefix(filter: &str) -> (r: String)
    ensures
        r@ == unshared(filter@),
{
    parse_shared_subscription(filter).0
}

/// Whether a filter holds a wildcard character.
pub fn is_wildcard_filter(filter: &str) -> (r: bool)
    ensures
        r == has_wildcard(filter@),
{
    let chars = chars_of(filter);
    has_char(chars.as_slice(), '+') || has_char(chars.as_slice(), '#')
}

/// Accepts exactly the valid topic names.
pub fn validate_topic_name(topic: &str) -> (r: Result<()>)
    ensures
        r is Ok <==> valid_topic_name(topic@),
        r matches Err(e) ==> e matches MqttError::InvalidTopicName(t) && t@ == topic@,
{
    let chars = chars_of(topic);
    if chars.len() == 0 || byte_len(topic) > MAX_TOPIC_BYTES || has_char(chars.as_slice(), '\0')
        || has_char(chars.as_slice(), '+') || has_char(chars.as_slice(), '#') {
        return Err(MqttError::InvalidTopicName(topic.to_owned()));
    }
    Ok(())
}

fn filter_is_valid(filter: &str) -> (r: bool)
    ensures
        r == valid_topic_filter(filter@),
{
    let chars = chars_of(filter);
    if chars.len() == 0 || byte_len(filter) > MAX_TOPIC_BYTES || has_char(chars.as_slice(), '\0') {
        return false;
    }
    let parts = split_chars(chars.as_slice(), '/');
    let ghost views = levels(filter@);
    let mut i: usize = 0;
    while i < parts.len()
        invariant
            i <= parts@.len(),
            views == char_lists(parts@),
            views == levels(filter@),
            forall|j: int|
                0 <= j < i ==> valid_level(#[trigger] views[j], j, views.len() as int),
        decreases parts@.len() - i,
    {
        assert(views[i as int] == parts@[i as int]@);
        let plus = has_char(parts[i].as_slice(), '+');
        let hash = has_char(parts[i].as_slice(), '#');
        if (plus && parts[i].len() != 1) || (hash && (parts[i].len() != 1 || i + 1
            != parts.len())) {
            assert(!valid_level(levels(filter@)[i as int], i as int, levels(filter@).len() as int));
            return false;
        }
        i = i + 1;
    }
    true
}

/// Accepts exactly the filters that may be subscribed to.
pub fn validate_subscription_filter(filter: &str) -> (r: Result<()>)
    ensures
        r is Ok <==> valid_subscription_filter(filter@),
        r matches Err(e) ==> e matches MqttError::InvalidTopicFilter(t) && t@ == filter@,
{
    let chars = chars_of(filter);
    let valid = if starts_with_share(chars.as_slice()) {
        let (actual, group) = parse_shared_subscription(filter);
        match group {
            Some(group) => {
                let name = chars_of(group.as_str());
                name.len() > 0 && !has_char(name.as_slice(), '+') && !has_char(
                    name.as_slice(),
                    '#',
                ) && byte_len(filter) <= MAX_TOPIC_BYTES && !has_char(chars.as_slice(), '\0')
                    && filter_is_valid(actual.as_str())
            },
            None => false,
        }
    } else {
        filter_is_valid(filter)
    };
    if valid {
        Ok(())
    } else {
        Err(MqttError::InvalidTopicFilter(filter.to_owned()))
    }
}

/// A topic name matches itself, read as a filter.
pub proof fn lemma_topic_matches_itself(topic: Seq<char>)
    requires
        !has_wildcard(topic),
    ensures
        topic_matches(topic, topic),
{
    lemma_split_chars_come_from(topic, '/');
    assert(!leading_wildcard(levels(topic))) by {
        if leading_wildcard(levels(topic)) {
            assert(levels(topic)[0].contains(levels(topic)[0][0]));
        }
    }
    assert forall|i: int| 0 <= i < levels(topic).len() implies #[trigger] levels(topic)[i]
        != seq!['#'] by {
        if levels(topic)[i] == seq!['#'] {
            assert(levels(topic)[i][0] == '#');
            assert(levels(topic)[i].contains('#'));
        }
    }
    lemma_levels_match_themselves(levels(topic));
}

proof fn lemma_levels_match_themselves(parts: Seq<Seq<char>>)
    requires
        forall|i: int| 0 <= i < parts.len() ==> #[trigger] parts[i] != seq!['#'],
    ensures
        levels_match(parts, parts),
    decreases parts.len(),
{
    if parts.len() > 0 {
        assert forall|i: int| 0 <= i < parts.drop_first().len() implies #[trigger] parts.drop_first()[i]
            != seq!['#'] by {
            assert(parts.drop_first()[i] == parts[i + 1]);
        }
        lemma_levels_match_themselves(parts.drop_first());
    }
}

/// Every character of a part of `s` stands in `s`.
pub proof fn lemma_split_chars_come_from(s: Seq<char>, separator: char)
    ensures
        split(s, separator).len() > 0,
        forall|i: int, c: char|
            0 <= i < split(s, separator).len() && #[trigger] split(s, separator)[i].contains(c)
                ==> s.contains(c) && c != separator,
    decreases s.len(),
{
    if s.len() > 0 {
        let before = split(s.drop_last(), separator);
        lemma_split_chars_come_from(s.drop_last(), separator);
        assert forall|i: int, c: char|
            0 <= i < split(s, separator).len() && #[trigger] split(
                s,
                separator,
            )[i].contains(c) implies s.contains(c) && c != separator by {
            let part = split(s, separator)[i];
            let k = choose|k: int| 0 <= k < part.len() && part[k] == c;
            if s.last() != separator && i == before.len() - 1 && k == part.len() - 1 {
                assert(s[s.len() - 1] == c);
            } else {
                assert(i < before.len());
                assert(before[i][k] == c);
                assert(before[i].contains(c));
                let m = choose|m: int| 0 <= m < s.drop_last().len() && s.drop_last()[m] == c;
                assert(s[m] == c);
            }
        }
    }
}

/// Two texts with the same parts are the same text.
pub proof fn lemma_split_injective(a: Seq<char>, b: Seq<char>, separator: char)
    requires
        split(a, separator) == split(b, separator),
    ensures
        a == b,
    decreases a.len() + b.len(),
{
    lemma_split_chars_come_from(a, separator);
    lemma_split_chars_come_from(b, separator);
    if a.len() == 0 || b.len() == 0 {
        if a.len() > 0 {
            lemma_split_shape(a, separator);
        }
        if b.len() > 0 {
            lemma_split_shape(b, separator);
        }
    } else {
        let x = split(a.drop_last(), separator);
        let y = split(b.drop_last(), separator);
        lemma_split_chars_come_from(a.drop_last(), separator);
        lemma_split_chars_come_from(b.drop_last(), separator);
        if a.last() == separator && b.last() == separator {
            assert(split(a, separator).drop_last() =~= x);
            assert(split(b, separator).drop_last() =~= y);
            lemma_split_injective(a.drop_last(), b.drop_last(), separator);
        } else if a.last() != separator && b.last() != separator {
            let last = split(a, separator).last();
            assert(last.drop_last() =~= x.last());
            assert(last.drop_last() =~= y.last());
            assert(x =~= split(a, separator).update(x.len() - 1, last.drop_last()));
            assert(y =~= split(b, separator).update(y.len() - 1, last.drop_last()));
            assert(last.last() == a.last() && last.last() == b.last());
            lemma_split_injective(a.drop_last(), b.drop_last(), separator);
        }
        assert(a =~= a.drop_last().push(a.last()));
        assert(b =~= b.drop_last().push(b.last()));
    }
}

/// A text that is not empty has more than one part, or one that is not empty.
proof fn lemma_split_shape(s: Seq<char>, separator: char)
    requires
        s.len() > 0,
    ensures
        split(s, separator).len() > 1 || split(s, separator)[0].len() > 0,
{
    lemma_split_chars_come_from(s.drop_last(), separator);
}

/// A filter without wildcards matches its own text alone.
pub proof fn lemma_plain_filter_matches_itself_only(topic: Seq<char>, filter: Seq<char>)
    requires
        !has_wildcard(filter),
        topic_matches(topic, filter),
    ensures
        topic == filter,
{
    lemma_split_chars_come_from(filter, '/');
    assert forall|i: int| 0 <= i < levels(filter).len() implies #[trigger] levels(filter)[i]
        != seq!['#'] && levels(filter)[i] != seq!['+'] by {
        if levels(filter)[i] == seq!['#'] {
            assert(levels(filter)[i][0] == '#');
            assert(levels(filter)[i].contains('#'));
        }
        if levels(filter)[i] == seq!['+'] {
            assert(levels(filter)[i][0] == '+');
            assert(levels(filter)[i].contains('+'));
        }
    }
    lemma_plain_levels(levels(topic), levels(filter));
    lemma_split_injective(topic, filter, '/');
}

proof fn lemma_plain_levels(topic: Seq<Seq<char>>, filter: Seq<Seq<char>>)
    requires
        forall|i: int|
            0 <= i < filter.len() ==> #[trigger] filter[i] != seq!['#'] && filter[i] != seq!['+'],
        levels_match(topic, filter),
    ensures
        topic == filter,
    decreases filter.len(),
{
    if filter.len() > 0 {
        let rest = filter.drop_first();
        assert forall|i: int| 0 <= i < rest.len() implies #[trigger] rest[i] != seq!['#'] && rest[i]
            != seq!['+'] by {
            assert(rest[i] == filter[i + 1]);
        }
        lemma_plain_levels(topic.drop_first(), rest);
        assert(topic =~= seq![topic[0]] + topic.drop_first());
        assert(filter =~= seq![filter[0]] + rest);
    } else {
        assert(topic =~= filter);
    }
}

/// The parts of a text behind a part without separators.
proof fn lemma_split_front(head: Seq<char>, rest: Seq<char>, separator: char)
    requires
        !head.contains(separator),
    ensures
        split(head + seq![separator] + rest, separator) == seq![head] + split(rest, separator),
    decreases rest.len(),
{
    let s = head + seq![separator] + rest;
    if rest.len() == 0 {
        lemma_split_one(head, separator);
        assert(s.drop_last() =~= head);
        assert(s.last() == separator);
        assert(split(s, separator) =~= seq![head] + split(rest, separator));
    } else {
        let init = rest.drop_last();
        lemma_split_front(head, init, separator);
        lemma_split_chars_come_from(init, separator);
        assert(s.drop_last() =~= head + seq![separator] + init);
        assert(s.last() == rest.last());
        let before = split(init, separator);
        assert(split(s, separator) =~= seq![head] + split(rest, separator));
    }
}

proof fn lemma_split_one(s: Seq<char>, separator: char)
    requires
        !s.contains(separator),
    ensures
        split(s, separator) == seq![s],
    decreases s.len(),
{
    if s.len() > 0 {
        let init = s.drop_last();
        assert forall|c: char| init.contains(c) implies s.contains(c) by {
            let k = choose|k: int| 0 <= k < init.len() && init[k] == c;
            assert(s[k] == c);
        }
        assert(s.contains(s.last())) by {
            assert(s[s.len() - 1] == s.last());
        }
        lemma_split_one(init, separator);
        assert(split(s, separator) =~= seq![s]) by {
            assert(init.push(s.last()) =~= s);
        }
    } else {
        assert(s =~= Seq::<char>::empty());
    }
}

/// The parts of two texts with a separator between them.
proof fn lemma_split_concat(a: Seq<char>, b: Seq<char>, separator: char)
    ensures
        split(a + seq![separator] + b, separator) == split(a, separator) + split(b, separator),
    decreases b.len(),
{
    let s = a + seq![separator] + b;
    lemma_split_chars_come_from(a, separator);
    if b.len() == 0 {
        assert(s.drop_last() =~= a);
        assert(s.last() == separator);
        assert(split(s, separator) =~= split(a, separator) + split(b, separator));
    } else {
        let init = b.drop_last();
        lemma_split_concat(a, init, separator);
        lemma_split_chars_come_from(init, separator);
        assert(s.drop_last() =~= a + seq![separator] + init);
        assert(s.last() == b.last());
        assert(split(s, separator) =~= split(a, separator) + split(b, separator));
    }
}

/// Parts with a slash between each two.
pub open spec fn with_slashes(parts: Seq<Seq<char>>) -> Seq<char>
    decreases parts.len(),
{
    if parts.len() == 0 {
        Seq::empty()
    } else if parts.len() == 1 {
        parts[0]
    } else {
        parts[0] + seq!['/'] + with_slashes(parts.drop_first())
    }
}

/// The levels of a text are what stands between its slashes: none holds a slash, and with slashes
/// between them they are the text again. No other list of parts is.
pub proof fn law_levels_stand_between_slashes(s: Seq<char>, parts: Seq<Seq<char>>)
    ensures
        levels(s).len() > 0,
        with_slashes(levels(s)) == s,
        forall|i: int| 0 <= i < levels(s).len() ==> !(#[trigger] levels(s)[i]).contains('/'),
        parts.len() > 0 && with_slashes(parts) == s && (forall|i: int|
            0 <= i < parts.len() ==> !(#[trigger] parts[i]).contains('/')) ==> parts == levels(s),
{
    lemma_split_chars_come_from(s, '/');
    lemma_split_joined(levels(s));
    lemma_split_injective(with_slashes(levels(s)), s, '/');
    if parts.len() > 0 && with_slashes(parts) == s && (forall|i: int|
        0 <= i < parts.len() ==> !(#[trigger] parts[i]).contains('/')) {
        lemma_split_joined(parts);
    }
}

proof fn lemma_split_joined(parts: Seq<Seq<char>>)
    requires
        parts.len() > 0,
        forall|i: int| 0 <= i < parts.len() ==> !(#[trigger] parts[i]).contains('/'),
    ensures
        levels(with_slashes(parts)) == parts,
    decreases parts.len(),
{
    if parts.len() == 1 {
        lemma_split_one(parts[0], '/');
        assert(parts =~= seq![parts[0]]);
    } else {
        let rest = parts.drop_first();
        assert forall|i: int| 0 <= i < rest.len() implies !(#[trigger] rest[i]).contains('/') by {
            assert(rest[i] == parts[i + 1]);
        }
        lemma_split_joined(rest);
        lemma_split_front(parts[0], with_slashes(rest), '/');
        assert(parts =~= seq![parts[0]] + rest);
    }
}

/// A level of a filter stands for a level of a topic.
pub open spec fn stands_for(level: Seq<char>, topic_level: Seq<char>) -> bool {
    level == seq!['+'] || level == topic_level
}

/// Levels match level by level: where the filter ends in `#` the topic has at least the levels
/// before it, otherwise as many as the filter, and each of them is the one that the filter names,
/// or any where it names `+`. A `#` that is not the last level matches nothing.
pub proof fn law_levels_match_level_by_level(topic: Seq<Seq<char>>, filter: Seq<Seq<char>>)
    ensures
        levels_match(topic, filter) <==> {
            let open = filter.len() > 0 && filter.last() == seq!['#'];
            let n = if open {
                filter.len() - 1
            } else {
                filter.len() as int
            };
            &&& if open {
                topic.len() >= n
            } else {
                topic.len() == n
            }
            &&& forall|i: int|
                0 <= i < n ==> (#[trigger] filter[i]) != seq!['#'] && stands_for(
                    filter[i],
                    topic[i],
                )
        },
    decreases filter.len(),
{
    let open = filter.len() > 0 && filter.last() == seq!['#'];
    let n = if open {
        filter.len() - 1
    } else {
        filter.len() as int
    };
    let fits = if open {
        topic.len() >= n
    } else {
        topic.len() == n
    };
    if filter.len() == 0 {
    } else if filter[0] == seq!['#'] {
        if filter.len() > 1 {
            assert(n >= 1);
            assert(filter[0] == seq!['#']);
        }
    } else {
        assert(n >= 1) by {
            if filter.len() == 1 {
                assert(filter.last() == filter[0]);
            }
        }
        if topic.len() > 0 {
            let t = topic.drop_first();
            let f = filter.drop_first();
            law_levels_match_level_by_level(t, f);
            assert(f.len() > 0 ==> f.last() == filter.last());
            if levels_match(topic, filter) {
                assert forall|i: int| 0 <= i < n implies (#[trigger] filter[i]) != seq!['#']
                    && stands_for(filter[i], topic[i]) by {
                    if i > 0 {
                        assert(f[i - 1] == filter[i]);
                        assert(t[i - 1] == topic[i]);
                    }
                }
            }
            if fits && forall|i: int|
                0 <= i < n ==> (#[trigger] filter[i]) != seq!['#'] && stands_for(
                    filter[i],
                    topic[i],
                ) {
                assert(stands_for(filter[0], topic[0]));
                assert forall|i: int| 0 <= i < n - 1 implies (#[trigger] f[i]) != seq!['#']
                    && stands_for(f[i], t[i]) by {
                    assert(f[i] == filter[i + 1]);
                    assert(t[i] == topic[i + 1]);
                }
            }
        }
    }
}

proof fn lemma_no_wildcard_levels(s: Seq<char>)
    requires
        !s.contains('+'),
        !s.contains('#'),
    ensures
        levels(s).len() > 0,
        forall|i: int|
            0 <= i < levels(s).len() ==> (#[trigger] levels(s)[i]) != seq!['#'] && levels(s)[i]
                != seq!['+'],
{
    lemma_split_chars_come_from(s, '/');
    assert forall|i: int| 0 <= i < levels(s).len() implies (#[trigger] levels(s)[i]) != seq!['#']
        && levels(s)[i] != seq!['+'] by {
        if levels(s)[i] == seq!['#'] {
            assert(levels(s)[i][0] == '#');
            assert(levels(s)[i].contains('#'));
        }
        if levels(s)[i] == seq!['+'] {
            assert(levels(s)[i][0] == '+');
            assert(levels(s)[i].contains('+'));
        }
    }
}

/// A filter that is a name, a slash and `#` matches the topic with that name and every topic below
/// it, however many levels follow, and no other topic.
pub proof fn law_hash_stands_for_all_that_remain(name: Seq<char>, topic: Seq<char>)
    requires
        !name.contains('+'),
        !name.contains('#'),
    ensures
        topic_matches(topic, name + seq!['/', '#']) <==> topic == name || (name + seq![
            '/',
        ]).is_prefix_of(topic),
{
    let filter = name + seq!['/', '#'];
    let p = levels(name);
    let t = levels(topic);
    let f = levels(filter);
    let n = p.len() as int;
    lemma_no_wildcard_levels(name);
    assert(filter =~= name + seq!['/'] + seq!['#']);
    lemma_split_concat(name, seq!['#'], '/');
    lemma_split_one(seq!['#'], '/');
    assert(f == p + seq![seq!['#']]);
    assert(f.last() == seq!['#']);
    assert(f[0] == p[0]);
    law_levels_match_level_by_level(t, f);
    law_levels_stand_between_slashes(topic, t);
    if topic_matches(topic, filter) {
        assert forall|i: int| 0 <= i < n implies p[i] == t[i] by {
            assert(f[i] == p[i]);
            assert(stands_for(f[i], t[i]));
        }
        assert(t.take(n) =~= p);
        if t.len() == n {
            assert(t =~= p);
            lemma_split_injective(topic, name, '/');
        } else {
            let rest = t.skip(n);
            assert forall|i: int| 0 <= i < rest.len() implies !(#[trigger] rest[i]).contains(
                '/',
            ) by {
                assert(rest[i] == t[i + n]);
            }
            lemma_split_joined(rest);
            lemma_split_concat(name, with_slashes(rest), '/');
            assert(t =~= p + rest);
            lemma_split_injective(topic, name + seq!['/'] + with_slashes(rest), '/');
            assert((name + seq!['/']).is_prefix_of(topic)) by {
                assert(topic.take(name.len() as int + 1) =~= name + seq!['/']);
            }
        }
    }
    if topic == name {
        assert forall|i: int| 0 <= i < n implies (#[trigger] f[i]) != seq!['#'] && stands_for(
            f[i],
            t[i],
        ) by {
            assert(f[i] == p[i]);
        }
    }
    if (name + seq!['/']).is_prefix_of(topic) {
        let rest = topic.skip(name.len() as int + 1);
        assert(topic =~= name + seq!['/'] + rest);
        lemma_split_concat(name, rest, '/');
        assert forall|i: int| 0 <= i < n implies (#[trigger] f[i]) != seq!['#'] && stands_for(
            f[i],
            t[i],
        ) by {
            assert(f[i] == p[i]);
            assert(t[i] == p[i]);
        }
    }
}

/// The filter `#` matches every topic but those that begin with `$`.
pub proof fn law_hash_alone_matches_every_topic(topic: Seq<char>)
    ensures
        topic_matches(topic, seq!['#']) <==> !(topic.len() > 0 && topic[0] == '$'),
{
    lemma_split_one(seq!['#'], '/');
    assert(levels(seq!['#'])[0] == seq!['#']);
}

proof fn lemma_levels_around(before: Seq<char>, level: Seq<char>, after: Seq<char>)
    requires
        !level.contains('/'),
        before.len() > 0 ==> before.last() == '/',
        after.len() > 0 ==> after[0] == '/',
    ensures
        levels(before + level + after) == (if before.len() == 0 {
            Seq::empty()
        } else {
            levels(before.drop_last())
        }) + seq![level] + (if after.len() == 0 {
            Seq::empty()
        } else {
            levels(after.drop_first())
        }),
{
    let head = if before.len() == 0 {
        Seq::<Seq<char>>::empty()
    } else {
        levels(before.drop_last())
    };
    let tail = if after.len() == 0 {
        Seq::<Seq<char>>::empty()
    } else {
        levels(after.drop_first())
    };
    let own = level + after;
    if after.len() == 0 {
        lemma_split_one(level, '/');
        assert(own =~= level);
        assert(levels(own) =~= seq![level] + tail);
    } else {
        assert(own =~= level + seq!['/'] + after.drop_first());
        lemma_split_front(level, after.drop_first(), '/');
    }
    if before.len() == 0 {
        assert(before + level + after =~= own);
        assert(levels(own) =~= head + seq![level] + tail);
    } else {
        assert(before + level + after =~= before.drop_last() + seq!['/'] + own);
        lemma_split_concat(before.drop_last(), own, '/');
        assert(head + (seq![level] + tail) =~= head + seq![level] + tail);
    }
}

/// A level `+` stands for exactly one level, whatever it holds: the topics that a filter with one
/// `+` matches are those that have some level in its place and are the filter everywhere else. A
/// filter that begins with `+` matches no topic that begins with `$`.
pub proof fn law_plus_stands_for_one_level(before: Seq<char>, after: Seq<char>, topic: Seq<char>)
    requires
        !before.contains('+') && !before.contains('#'),
        !after.contains('+') && !after.contains('#'),
        before.len() > 0 ==> before.last() == '/',
        after.len() > 0 ==> after[0] == '/',
    ensures
        topic_matches(topic, before + seq!['+'] + after) <==> (exists|level: Seq<char>|
            !level.contains('/') && topic == #[trigger] (before + level + after)) && !(before.len()
            == 0 && topic.len() > 0 && topic[0] == '$'),
{
    let filter = before + seq!['+'] + after;
    let head = if before.len() == 0 {
        Seq::<Seq<char>>::empty()
    } else {
        levels(before.drop_last())
    };
    let tail = if after.len() == 0 {
        Seq::<Seq<char>>::empty()
    } else {
        levels(after.drop_first())
    };
    let k = head.len() as int;
    let t = levels(topic);
    let f = levels(filter);
    lemma_levels_around(before, seq!['+'], after);
    assert(f == head + seq![seq!['+']] + tail);
    if before.len() > 0 {
        assert forall|c: char| before.drop_last().contains(c) implies before.contains(c) by {
            let i = choose|i: int| 0 <= i < before.drop_last().len() && before.drop_last()[i] == c;
            assert(before[i] == c);
        }
        lemma_no_wildcard_levels(before.drop_last());
    }
    if after.len() > 0 {
        assert forall|c: char| after.drop_first().contains(c) implies after.contains(c) by {
            let i = choose|i: int| 0 <= i < after.drop_first().len() && after.drop_first()[i] == c;
            assert(after[i + 1] == c);
        }
        lemma_no_wildcard_levels(after.drop_first());
    }
    assert(f.len() == k + 1 + tail.len());
    assert(f[k] == seq!['+']);
    assert forall|i: int| 0 <= i < f.len() implies (#[trigger] f[i]) != seq!['#'] && (i != k
        ==> f[i] != seq!['+']) by {
        if i < k {
            assert(f[i] == head[i]);
        } else if i > k {
            assert(f[i] == tail[i - k - 1]);
        } else {
            assert(f[i][0] == '+');
        }
    }
    assert(f.last() == f[f.len() - 1]);
    law_levels_match_level_by_level(t, f);
    law_levels_stand_between_slashes(topic, t);
    assert(leading_wildcard(f) <==> before.len() == 0) by {
        assert(f[0] != seq!['#']);
    }
    if levels_match(t, f) {
        let level = t[k];
        assert(stands_for(f[k], t[k]));
        assert forall|i: int| 0 <= i < t.len() implies t[i] == (head + seq![level] + tail)[i] by {
            assert(stands_for(f[i], t[i]));
        }
        assert(t =~= head + seq![level] + tail);
        lemma_levels_around(before, level, after);
        lemma_split_injective(topic, before + level + after, '/');
    }
    if exists|level: Seq<char>|
        !level.contains('/') && topic == #[trigger] (before + level + after) {
        let level = choose|level: Seq<char>|
            !level.contains('/') && topic == #[trigger] (before + level + after);
        lemma_levels_around(before, level, after);
        assert forall|i: int| 0 <= i < f.len() implies (#[trigger] f[i]) != seq!['#']
            && stands_for(f[i], t[i]) by {
            if i < k {
                assert(t[i] == head[i]);
            } else if i > k {
                assert(t[i] == tail[i - k - 1]);
            }
        }
    }
}

/// A filter without wildcards matches the topic that it names, and no other.
pub proof fn law_plain_filter_matches_its_own_topic(topic: Seq<char>, filter: Seq<char>)
    requires
        !filter.contains('+'),
        !filter.contains('#'),
    ensures
        topic_matches(topic, filter) <==> topic == filter,
{
    if topic_matches(topic, filter) {
        lemma_plain_filter_matches_itself_only(topic, filter);
    }
    lemma_topic_matches_itself(filter);
}

/// A shared subscription is taken apart again: behind `$share/` and a slash stand the group, which
/// holds no slash, and the filter. Any other filter has no group and is its own.
pub proof fn law_shared_subscription_is_taken_apart(
    group: Seq<char>,
    actual: Seq<char>,
    filter: Seq<char>,
)
    requires
        !group.contains('/'),
    ensures
        share_group("$share/"@ + group + "/"@ + actual) == Some(group),
        unshared("$share/"@ + group + "/"@ + actual) == actual,
        share_group(filter) is None ==> unshared(filter) == filter,
        share_group(filter) matches Some(g) ==> !g.contains('/') && filter == "$share/"@ + g
            + "/"@ + unshared(filter),
        share_group(filter) is Some <==> "$share/"@.is_prefix_of(filter) && filter.skip(
            7,
        ).contains('/'),
{
    reveal_strlit("$share/");
    reveal_strlit("/");
    assert("$share/"@ =~= share_prefix());
    let whole = "$share/"@ + group + "/"@ + actual;
    assert(whole.take(7) =~= share_prefix());
    assert(whole.skip(7) =~= group + seq!['/'] + actual);
    let rest = whole.skip(7);
    assert(rest[group.len() as int] == '/');
    assert(rest.contains('/'));
    assert forall|i: int| 0 <= i < group.len() implies rest[i] != '/' by {
        assert(group.contains(group[i]));
    }
    lemma_find(rest, '/', group.len() as int);
    assert(rest.take(group.len() as int) =~= group);
    assert(rest.skip(group.len() as int + 1) =~= actual);
    if is_shared(filter) {
        let r = filter.skip(7);
        let k = choose|k: int| 0 <= k < r.len() && r[k] == '/';
        lemma_find_bound(r, '/', k);
        let at = find(r, '/');
        let g = r.take(at);
        assert(!g.contains('/')) by {
            if g.contains('/') {
                let j = choose|j: int| 0 <= j < g.len() && g[j] == '/';
                assert(r[j] == '/');
                lemma_find_bound(r, '/', j);
            }
        }
        assert(filter.take(7) =~= share_prefix());
        assert(filter =~= "$share/"@ + g + "/"@ + r.skip(at + 1));
    }
}

proof fn lemma_find(s: Seq<char>, c: char, at: int)
    requires
        0 <= at < s.len(),
        s[at] == c,
        forall|i: int| 0 <= i < at ==> s[i] != c,
    ensures
        find(s, c) == at,
    decreases s.len(),
{
    if at > 0 {
        assert(s[0] != c);
        assert forall|i: int| 0 <= i < at - 1 implies s.drop_first()[i] != c by {
            assert(s.drop_first()[i] == s[i + 1]);
        }
        lemma_find(s.drop_first(), c, at - 1);
    }
}

proof fn lemma_find_bound(s: Seq<char>, c: char, at: int)
    requires
        0 <= at < s.len(),
        s[at] == c,
    ensures
        0 <= find(s, c) <= at,
        s[find(s, c)] == c,
    decreases s.len(),
{
    if s[0] != c {
        lemma_find_bound(s.drop_first(), c, at - 1);
    }
}

/// Whether the wildcards of a filter stand well: each between slashes or the ends of the filter,
/// and `#` at the end.
pub open spec fn wildcards_stand_well(filter: Seq<char>) -> bool {
    forall|i: int|
        0 <= i < filter.len() && ((#[trigger] filter[i]) == '+' || filter[i] == '#') ==> {
            &&& i == 0 || filter[i - 1] == '/'
            &&& i == filter.len() - 1 || filter[i] == '+' && filter[i + 1] == '/'
        }
}

proof fn lemma_level_wildcards(filter: Seq<char>)
    ensures
        wildcards_stand_well(filter) <==> forall|i: int|
            #![trigger levels(filter)[i]]
            0 <= i < levels(filter).len() ==> valid_level(
                levels(filter)[i],
                i,
                levels(filter).len() as int,
            ),
    decreases filter.len(),
{
    if !filter.contains('/') {
        lemma_split_one(filter, '/');
        let all = levels(filter);
        assert(all == seq![filter]);
        assert(all[0] == filter);
        if wildcards_stand_well(filter) {
            if filter.contains('+') {
                let i = choose|i: int| 0 <= i < filter.len() && filter[i] == '+';
                assert(filter[i] == '+');
                if i > 0 {
                    assert(filter.contains(filter[i - 1]));
                }
                if i < filter.len() - 1 {
                    assert(filter.contains(filter[i + 1]));
                }
            }
            if filter.contains('#') {
                let i = choose|i: int| 0 <= i < filter.len() && filter[i] == '#';
                assert(filter[i] == '#');
                if i > 0 {
                    assert(filter.contains(filter[i - 1]));
                }
            }
        }
        if valid_level(filter, 0, 1) {
            assert forall|i: int|
                0 <= i < filter.len() && ((#[trigger] filter[i]) == '+' || filter[i] == '#') implies {
                &&& i == 0 || filter[i - 1] == '/'
                &&& i == filter.len() - 1 || filter[i] == '+' && filter[i + 1] == '/'
            } by {
                assert(filter.contains(filter[i]));
            }
        }
    } else {
        let k = choose|k: int| 0 <= k < filter.len() && filter[k] == '/';
        lemma_find_bound(filter, '/', k);
        let at = find(filter, '/');
        let head = filter.take(at);
        let rest = filter.skip(at + 1);
        assert(!head.contains('/')) by {
            if head.contains('/') {
                let j = choose|j: int| 0 <= j < head.len() && head[j] == '/';
                assert(filter[j] == '/');
                lemma_find_bound(filter, '/', j);
            }
        }
        assert(filter =~= head + seq!['/'] + rest);
        lemma_split_front(head, rest, '/');
        lemma_level_wildcards(rest);
        lemma_split_chars_come_from(rest, '/');
        let all = levels(filter);
        let n = all.len() as int;
        let below = levels(rest);
        assert(all == seq![head] + below);
        assert(all[0] == head);
        if wildcards_stand_well(filter) {
            assert forall|i: int|
                0 <= i < rest.len() && ((#[trigger] rest[i]) == '+' || rest[i] == '#') implies {
                &&& i == 0 || rest[i - 1] == '/'
                &&& i == rest.len() - 1 || rest[i] == '+' && rest[i + 1] == '/'
            } by {
                assert(filter[at + 1 + i] == rest[i]);
            }
            assert(valid_level(head, 0, n)) by {
                if head.contains('+') {
                    let i = choose|i: int| 0 <= i < head.len() && head[i] == '+';
                    assert(filter[i] == '+');
                    if i > 0 {
                        assert(head.contains(head[i - 1]));
                    }
                    if i < head.len() - 1 {
                        assert(head.contains(head[i + 1]));
                    }
                }
                if head.contains('#') {
                    let i = choose|i: int| 0 <= i < head.len() && head[i] == '#';
                    assert(filter[i] == '#');
                }
            }
            assert forall|i: int|
                #![trigger levels(filter)[i]]
                0 <= i < levels(filter).len() implies valid_level(levels(filter)[i], i, n) by {
                if i > 0 {
                    assert(all[i] == below[i - 1]);
                    assert(valid_level(below[i - 1], i - 1, below.len() as int));
                }
            }
        }
        if forall|i: int|
            #![trigger levels(filter)[i]]
            0 <= i < levels(filter).len() ==> valid_level(levels(filter)[i], i, n) {
            assert forall|i: int|
                #![trigger levels(rest)[i]]
                0 <= i < levels(rest).len() implies valid_level(
                levels(rest)[i],
                i,
                levels(rest).len() as int,
            ) by {
                assert(levels(filter)[i + 1] == below[i]);
            }
            assert(valid_level(levels(filter)[0], 0, n));
            assert forall|i: int|
                0 <= i < filter.len() && ((#[trigger] filter[i]) == '+' || filter[i] == '#') implies {
                &&& i == 0 || filter[i - 1] == '/'
                &&& i == filter.len() - 1 || filter[i] == '+' && filter[i + 1] == '/'
            } by {
                if i < at {
                    assert(head[i] == filter[i]);
                    assert(head.contains(head[i]));
                } else {
                    assert(rest[i - at - 1] == filter[i]);
                }
            }
        }
    }
}

/// A filter may be subscribed to exactly if it is a topic filter, or one in the name of a group.
/// A topic filter is not empty, not too long, and holds no NUL; each of its wildcards stands between
/// slashes or the ends, and `#` at the end. The name of a group is not empty and holds no wildcard.
pub proof fn law_subscription_filters(filter: Seq<char>, group: Seq<char>)
    requires
        !group.contains('/'),
    ensures
        valid_topic_filter(filter) <==> 0 < filter.len() && crate::text::utf8(filter).len() <= 65535
            && !filter.contains('\0') && wildcards_stand_well(filter),
        !"$share/"@.is_prefix_of(filter) ==> (valid_subscription_filter(filter)
            <==> valid_topic_filter(filter)),
        ({
            let whole = "$share/"@ + group + "/"@ + filter;
            valid_subscription_filter(whole) <==> group.len() > 0 && !group.contains('+')
                && !group.contains('#') && crate::text::utf8(whole).len() <= 65535
                && !whole.contains('\0') && valid_topic_filter(filter)
        }),
        "$share/"@.is_prefix_of(filter) && !filter.skip(7).contains('/')
            ==> !valid_subscription_filter(filter),
{
    lemma_level_wildcards(filter);
    law_shared_subscription_is_taken_apart(group, filter, filter);
    reveal_strlit("$share/");
    assert("$share/"@ =~= share_prefix());
    let whole = "$share/"@ + group + "/"@ + filter;
    assert(whole.take(7) =~= share_prefix());
}

/// A name that a message may be published on is a topic filter, which matches that message.
pub proof fn law_topic_name_is_a_filter(topic: Seq<char>)
    requires
        valid_topic_name(topic),
    ensures
        0 < topic.len(),
        crate::text::utf8(topic).len() <= 65535,
        forall|i: int|
            0 <= i < topic.len() ==> (#[trigger] topic[i]) != '+' && topic[i] != '#' && topic[i]
                != '\0',
        valid_topic_filter(topic),
        topic_matches(topic, topic),
{
    assert forall|i: int| 0 <= i < topic.len() implies (#[trigger] topic[i]) != '+' && topic[i]
        != '#' && topic[i] != '\0' by {
        assert(topic.contains(topic[i]));
    }
    law_subscription_filters(topic, Seq::empty());
    law_plain_filter_matches_its_own_topic(topic, topic);
}

/// Every text that is not empty, not too long, and holds neither a wildcard nor NUL is a name that a
/// message may be published on.
pub proof fn law_plain_text_is_a_topic_name(topic: Seq<char>)
    requires
        0 < topic.len(),
        crate::text::utf8(topic).len() <= 65535,
        forall|i: int|
            0 <= i < topic.len() ==> (#[trigger] topic[i]) != '+' && topic[i] != '#' && topic[i]
                != '\0',
    ensures
        valid_topic_name(topic),
{
}

} // verus!

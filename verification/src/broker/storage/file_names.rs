//! Names of the files in which the broker keeps messages.
//!
//! A retained message stands in a file named after its topic, with the characters that file
//! systems reserve written as `%` and two hexadecimal digits. A queued message stands in a file
//! named after its sequence number, padded so that the order of the names is the order of the
//! numbers.

use super::InflightDirection;
use crate::text::{chars_of, decimal_text, string_of};
use vstd::prelude::*;

verus! {

/// The two hexadecimal digits behind `%` for a reserved character.
pub open spec fn escape(c: char) -> Option<(char, char)> {
    match c {
        '%' => Some(('2', '5')),
        '/' => Some(('2', 'F')),
        '+' => Some(('2', 'B')),
        '#' => Some(('2', '3')),
        '$' => Some(('2', '4')),
        '\\' => Some(('5', 'C')),
        ':' => Some(('3', 'A')),
        '*' => Some(('2', 'A')),
        '?' => Some(('3', 'F')),
        '"' => Some(('2', '2')),
        '<' => Some(('3', 'C')),
        '>' => Some(('3', 'E')),
        '|' => Some(('7', 'C')),
        '\0' => Some(('0', '0')),
        _ => None,
    }
}

fn escape_of(c: char) -> (r: Option<(char, char)>)
    ensures
        r == escape(c),
{
    match c {
        '%' => Some(('2', '5')),
        '/' => Some(('2', 'F')),
        '+' => Some(('2', 'B')),
        '#' => Some(('2', '3')),
        '$' => Some(('2', '4')),
        '\\' => Some(('5', 'C')),
        ':' => Some(('3', 'A')),
        '*' => Some(('2', 'A')),
        '?' => Some(('3', 'F')),
        '"' => Some(('2', '2')),
        '<' => Some(('3', 'C')),
        '>' => Some(('3', 'E')),
        '|' => Some(('7', 'C')),
        '\0' => Some(('0', '0')),
        _ => None,
    }
}

/// A character as it stands in a file name.
pub open spec fn encoded_char(c: char) -> Seq<char> {
    match escape(c) {
        Some((high, low)) => seq!['%', high, low],
        None => seq![c],
    }
}

/// A topic as a file name.
pub open spec fn encoded(topic: Seq<char>) -> Seq<char>
    decreases topic.len(),
{
    if topic.len() == 0 {
        Seq::empty()
    } else {
        encoded(topic.drop_last()) + encoded_char(topic.last())
    }
}

/// The value of a hexadecimal digit.
pub open spec fn hex_digit(c: char) -> Option<int> {
    if '0' <= c <= '9' {
        Some(c as int - '0' as int)
    } else if 'a' <= c <= 'f' {
        Some(c as int - 'a' as int + 10)
    } else if 'A' <= c <= 'F' {
        Some(c as int - 'A' as int + 10)
    } else {
        None
    }
}

fn hex_digit_of(c: char) -> (r: Option<u8>)
    ensures
        match r {
            Some(d) => hex_digit(c) == Some(d as int) && d < 16,
            None => hex_digit(c) is None,
        },
{
    if '0' <= c && c <= '9' {
        Some((c as u32 - '0' as u32) as u8)
    } else if 'a' <= c && c <= 'f' {
        Some((c as u32 - 'a' as u32 + 10) as u8)
    } else if 'A' <= c && c <= 'F' {
        Some((c as u32 - 'A' as u32 + 10) as u8)
    } else {
        None
    }
}

/// The byte that at most two characters stand for in hexadecimal; one digit behind a `+` counts.
pub open spec fn hex_byte(s: Seq<char>) -> Option<int> {
    if s.len() == 1 {
        hex_digit(s[0])
    } else if s.len() == 2 {
        if s[0] == '+' {
            hex_digit(s[1])
        } else {
            match (hex_digit(s[0]), hex_digit(s[1])) {
                (Some(high), Some(low)) => Some(high * 16 + low),
                _ => None,
            }
        }
    } else {
        None
    }
}

/// The characters behind a `%`: two, or fewer at the end.
pub open spec fn behind_percent(name: Seq<char>) -> Seq<char> {
    if name.len() >= 3 {
        name.subrange(1, 3)
    } else {
        name.skip(1)
    }
}

/// The topic that a file name stands for. A `%` that no byte follows stands for itself.
pub open spec fn decoded(name: Seq<char>) -> Seq<char>
    decreases name.len(),
{
    if name.len() == 0 {
        Seq::empty()
    } else if name[0] != '%' {
        seq![name[0]] + decoded(name.skip(1))
    } else {
        let hex = behind_percent(name);
        let rest = decoded(name.skip(1 + hex.len() as int));
        match hex_byte(hex) {
            Some(byte) => seq![byte as char] + rest,
            None => seq!['%'] + hex + rest,
        }
    }
}

/// The name of the file, without extension, that keeps the retained message of a topic.
pub fn topic_to_filename(topic: &str) -> (r: String)
    ensures
        r@ == encoded(topic@),
{
    let chars = chars_of(topic);
    let mut out = String::new();
    let mut i: usize = 0;
    assert(chars@.take(0) =~= Seq::<char>::empty());
    while i < chars.len()
        invariant
            i <= chars@.len(),
            out@ == encoded(chars@.take(i as int)),
        decreases chars@.len() - i,
    {
        let c = chars[i];
        let ghost before = out@;
        assert(chars@.take(i + 1).drop_last() =~= chars@.take(i as int));
        assert(chars@.take(i + 1).last() == c);
        match escape_of(c) {
            Some((high, low)) => {
                out.push('%');
                out.push(high);
                out.push(low);
                assert(out@ =~= before + seq!['%', high, low]);
            },
            None => {
                out.push(c);
                assert(out@ =~= before + seq![c]);
            },
        }
        i = i + 1;
    }
    assert(chars@.take(chars@.len() as int) =~= chars@);
    out
}

/// The topic whose retained message a file keeps.
pub fn filename_to_topic(filename: &str) -> (r: String)
    ensures
        r@ == decoded(filename@),
{
    let chars = chars_of(filename);
    let n: usize = chars.len();
    let mut out = String::new();
    let mut i: usize = 0;
    assert(chars@.skip(0) =~= chars@);
    assert(out@ + decoded(chars@) =~= decoded(chars@));
    while i < n
        invariant
            i <= n,
            n == chars@.len(),
            out@ + decoded(chars@.skip(i as int)) == decoded(chars@),
        decreases n - i,
    {
        let ghost rest = chars@.skip(i as int);
        let ghost before = out@;
        let c = chars[i];
        assert(rest[0] == c);
        if c != '%' {
            out.push(c);
            proof {
                assert(rest.skip(1) =~= chars@.skip(i + 1));
                assert(out@ + decoded(chars@.skip(i + 1)) =~= before + (seq![c] + decoded(
                    rest.skip(1),
                )));
            }
            i = i + 1;
        } else {
            let ghost hex = behind_percent(rest);
            let left: usize = n - i - 1;
            let taken: usize = if left >= 2 {
                2
            } else {
                left
            };
            proof {
                assert(hex.len() == taken);
                if taken == 2 {
                    assert(hex =~= seq![chars@[i + 1], chars@[i + 2]]);
                } else if taken == 1 {
                    assert(hex =~= seq![chars@[i + 1]]);
                }
            }
            let byte: Option<u8> = if taken == 2 {
                if chars[i + 1] == '+' {
                    hex_digit_of(chars[i + 2])
                } else {
                    match (hex_digit_of(chars[i + 1]), hex_digit_of(chars[i + 2])) {
                        (Some(high), Some(low)) => Some(high * 16 + low),
                        _ => None,
                    }
                }
            } else if taken == 1 {
                hex_digit_of(chars[i + 1])
            } else {
                None
            };
            match byte {
                Some(b) => {
                    out.push(b as char);
                    assert(hex_byte(hex) == Some(b as int));
                    assert((b as int) as char == b as char);
                    assert(out@ =~= before + seq![b as char]);
                },
                None => {
                    out.push('%');
                    if taken >= 1 {
                        out.push(chars[i + 1]);
                    }
                    if taken >= 2 {
                        out.push(chars[i + 2]);
                    }
                    assert(hex_byte(hex) is None);
                    assert(out@ =~= before + (seq!['%'] + hex));
                },
            }
            proof {
                let tail = decoded(rest.skip(1 + hex.len() as int));
                assert(rest.skip(1 + hex.len() as int) =~= chars@.skip(i + 1 + taken));
                match hex_byte(hex) {
                    Some(b) => {
                        assert((before + seq![b as char]) + tail =~= before + (seq![b as char]
                            + tail));
                    },
                    None => {
                        assert((before + (seq!['%'] + hex)) + tail =~= before + (seq!['%'] + hex
                            + tail));
                    },
                }
            }
            i = i + 1 + taken;
        }
    }
    assert(chars@.skip(n as int) =~= Seq::<char>::empty());
    assert(out@ + Seq::<char>::empty() =~= out@);
    out
}

proof fn lemma_decode_after(c: char, rest: Seq<char>)
    ensures
        decoded(encoded_char(c) + rest) == seq![c] + decoded(rest),
{
    let name = encoded_char(c) + rest;
    match escape(c) {
        Some((high, low)) => {
            assert(name =~= seq!['%', high, low] + rest);
            assert(name[0] == '%');
            assert(behind_percent(name) =~= seq![high, low]);
            assert(name.skip(3) =~= rest);
            assert(hex_byte(seq![high, low]) == Some(c as int));
            assert((c as int) as char == c);
        },
        None => {
            assert(name[0] == c);
            assert(name.skip(1) =~= rest);
        },
    }
}

proof fn lemma_decode_encode_with(topic: Seq<char>, rest: Seq<char>)
    ensures
        decoded(encoded(topic) + rest) == topic + decoded(rest),
    decreases topic.len(),
{
    if topic.len() == 0 {
        assert(encoded(topic) + rest =~= rest);
        assert(topic + decoded(rest) =~= decoded(rest));
    } else {
        let init = topic.drop_last();
        let c = topic.last();
        assert(encoded(topic) + rest =~= encoded(init) + (encoded_char(c) + rest));
        lemma_decode_encode_with(init, encoded_char(c) + rest);
        lemma_decode_after(c, rest);
        assert(init + (seq![c] + decoded(rest)) =~= topic + decoded(rest));
    }
}

/// The file name of a topic gives the topic back.
pub proof fn law_filename_gives_topic_back(topic: Seq<char>)
    ensures
        decoded(encoded(topic)) == topic,
{
    lemma_decode_encode_with(topic, Seq::empty());
    assert(encoded(topic) + Seq::<char>::empty() =~= encoded(topic));
    assert(topic + decoded(Seq::empty()) =~= topic);
}

/// Two topics never share a file.
pub proof fn law_topics_do_not_share_a_file(a: Seq<char>, b: Seq<char>)
    requires
        encoded(a) == encoded(b),
    ensures
        a == b,
{
    law_filename_gives_topic_back(a);
    law_filename_gives_topic_back(b);
}

/// A file name holds no reserved character but the `%` of an escape.
pub proof fn law_filename_holds_no_reserved_character(topic: Seq<char>, i: int)
    requires
        0 <= i < encoded(topic).len(),
    ensures
        encoded(topic)[i] == '%' || escape(encoded(topic)[i]) is None,
    decreases topic.len(),
{
    if topic.len() > 0 {
        let init = encoded(topic.drop_last());
        let last = encoded_char(topic.last());
        if i < init.len() {
            law_filename_holds_no_reserved_character(topic.drop_last(), i);
        } else {
            let k = i - init.len();
            assert(encoded(topic)[i] == last[k]);
            match escape(topic.last()) {
                Some((high, low)) => {
                    assert(last =~= seq!['%', high, low]);
                },
                None => {},
            }
        }
    }
}

/// A number in `width` decimal digits, with leading zeros.
pub open spec fn padded(n: nat, width: nat) -> Seq<char>
    decreases width,
{
    if width == 0 {
        Seq::empty()
    } else {
        padded(n / 10, (width - 1) as nat).push(crate::text::digit((n % 10) as int))
    }
}

/// How many numbers have at most `width` decimal digits.
pub open spec fn numbers_of_width(width: nat) -> nat
    decreases width,
{
    if width == 0 {
        1
    } else {
        10 * numbers_of_width((width - 1) as nat)
    }
}

/// Whether a character is a decimal digit.
pub open spec fn is_digit(c: char) -> bool {
    '0' <= c <= '9'
}

/// The number that decimal digits stand for.
pub open spec fn value(digits: Seq<char>) -> nat
    decreases digits.len(),
{
    if digits.len() == 0 {
        0
    } else {
        value(digits.drop_last()) * 10 + (digits.last() as int - '0' as int) as nat
    }
}

/// The digits of a number that may stand behind a `+`.
pub open spec fn unsigned(s: Seq<char>) -> Seq<char> {
    if s.len() > 1 && s[0] == '+' {
        s.skip(1)
    } else {
        s
    }
}

/// The 64-bit number that a text stands for: decimal digits, possibly behind a `+`.
pub open spec fn parsed(s: Seq<char>) -> Option<u64> {
    let digits = unsigned(s);
    if digits.len() > 0 && (forall|i: int| 0 <= i < digits.len() ==> is_digit(#[trigger] digits[i]))
        && value(digits) <= u64::MAX {
        Some(value(digits) as u64)
    } else {
        None
    }
}

proof fn lemma_value_take(digits: Seq<char>, n: int)
    requires
        0 <= n <= digits.len(),
    ensures
        value(digits.take(n)) <= value(digits),
    decreases digits.len(),
{
    if n == digits.len() {
        assert(digits.take(n) =~= digits);
    } else {
        lemma_value_take(digits.drop_last(), n);
        assert(digits.drop_last().take(n) =~= digits.take(n));
    }
}

/// Reads a 64-bit number.
pub fn parse_number(s: &[char]) -> (r: Option<u64>)
    ensures
        r == parsed(s@),
{
    let start: usize = if s.len() > 1 && s[0] == '+' {
        1
    } else {
        0
    };
    let ghost digits = unsigned(s@);
    proof {
        if start == 0 {
            assert(digits =~= s@.skip(0));
        }
        assert(digits =~= s@.skip(start as int));
    }
    if s.len() == start {
        return None;
    }
    let mut total: u64 = 0;
    let mut i: usize = start;
    assert(digits.take(0) =~= Seq::<char>::empty());
    while i < s.len()
        invariant
            start <= i <= s@.len(),
            digits == s@.skip(start as int),
            digits == unsigned(s@),
            digits.len() > 0,
            total == value(digits.take(i - start)),
            forall|j: int| 0 <= j < i - start ==> is_digit(#[trigger] digits[j]),
        decreases s@.len() - i,
    {
        let c = s[i];
        assert(digits[i - start] == c);
        if c < '0' || c > '9' {
            assert(!is_digit(digits[i - start]));
            return None;
        }
        let d: u64 = (c as u32 - '0' as u32) as u64;
        proof {
            assert(digits.take(i - start + 1).drop_last() =~= digits.take(i - start));
            assert(digits.take(i - start + 1).last() == c);
            lemma_value_take(digits, i - start + 1);
        }
        let tens: u64 = match total.checked_mul(10) {
            Some(tens) => tens,
            None => {
                return None;
            },
        };
        total = match tens.checked_add(d) {
            Some(sum) => sum,
            None => {
                return None;
            },
        };
        i = i + 1;
    }
    assert(digits.take(digits.len() as int) =~= digits);
    Some(total)
}

proof fn lemma_value_padded(n: nat, width: nat)
    requires
        n < numbers_of_width(width),
    ensures
        padded(n, width).len() == width,
        value(padded(n, width)) == n,
        forall|i: int|
            0 <= i < width ==> is_digit(#[trigger] padded(n, width)[i]),
    decreases width,
{
    if width > 0 {
        lemma_value_padded(n / 10, (width - 1) as nat);
        let d = crate::text::digit((n % 10) as int);
        assert(d as int == '0' as int + n % 10);
        assert(padded(n, width).drop_last() =~= padded(n / 10, (width - 1) as nat));
    }
}

/// A stored number gives the number back.
pub proof fn law_padded_number_gives_number_back(n: u64)
    ensures
        parsed(padded(n as nat, 20)) == Some(n),
{
    reveal_with_fuel(numbers_of_width, 21);
    lemma_value_padded(n as nat, 20);
    assert(is_digit(padded(n as nat, 20)[0]));
    assert(unsigned(padded(n as nat, 20)) == padded(n as nat, 20));
}

/// Whether one text comes before another: they agree up to a place where the first holds the
/// smaller character.
pub open spec fn comes_before(a: Seq<char>, b: Seq<char>) -> bool {
    exists|k: int|
        0 <= k < a.len() && k < b.len() && a.take(k) == b.take(k) && #[trigger] a[k] < b[k]
}

proof fn lemma_padded_order(a: nat, b: nat, width: nat)
    requires
        a < b < numbers_of_width(width),
    ensures
        comes_before(padded(a, width), padded(b, width)),
    decreases width,
{
    lemma_value_padded(a, width);
    lemma_value_padded(b, width);
    let w = (width - 1) as nat;
    let x = padded(a, width);
    let y = padded(b, width);
    let p = padded(a / 10, w);
    let q = padded(b / 10, w);
    lemma_value_padded(a / 10, w);
    lemma_value_padded(b / 10, w);
    if a / 10 < b / 10 {
        lemma_padded_order(a / 10, b / 10, w);
        let k = choose|k: int|
            0 <= k < p.len() && k < q.len() && p.take(k) == q.take(k) && #[trigger] p[k] < q[k];
        assert(x.take(k) =~= p.take(k));
        assert(y.take(k) =~= q.take(k));
        assert(x[k] < y[k]);
    } else {
        assert(a / 10 == b / 10);
        assert(x.take(w as int) =~= p);
        assert(y.take(w as int) =~= q);
        assert(x[w as int] < y[w as int]);
    }
}

/// The order of the names of queue files is the order of their sequence numbers.
pub proof fn law_file_order_is_sequence_order(a: u64, b: u64)
    requires
        a < b,
    ensures
        comes_before(padded(a as nat, 20), padded(b as nat, 20)),
{
    reveal_with_fuel(numbers_of_width, 21);
    lemma_padded_order(a as nat, b as nat, 20);
}

fn padded_chars(n: u64, width: u64) -> (r: Vec<char>)
    ensures
        r@ == padded(n as nat, width as nat),
    decreases width,
{
    if width == 0 {
        return Vec::new();
    }
    let mut out = padded_chars(n / 10, width - 1);
    out.push(crate::text::digit_char(n % 10));
    out
}

/// The name of the file that keeps a queued message: its sequence number in twenty digits.
pub fn queue_file_stem(seq: u64) -> (r: String)
    ensures
        r@ == padded(seq as nat, 20),
{
    let chars = padded_chars(seq, 20);
    string_of(chars.as_slice())
}

/// What the name of a queue file says.
#[derive(Debug, Clone, Copy, PartialEq, Eq, Structural)]
pub enum QueueFileName {
    /// A sequence number.
    Sequence(u64),
    /// A moment and a number, as older brokers named their files.
    Legacy { ts: u64, seq: u64 },
}

/// What a name says: two numbers around the first `_`, or one number.
pub open spec fn queue_file_name(stem: Seq<char>) -> Option<QueueFileName> {
    let at = crate::topic::find(stem, '_');
    if stem.contains('_') {
        match (parsed(stem.take(at)), parsed(stem.skip(at + 1))) {
            (Some(ts), Some(seq)) => Some(QueueFileName::Legacy { ts, seq }),
            _ => None,
        }
    } else {
        match parsed(stem) {
            Some(seq) => Some(QueueFileName::Sequence(seq)),
            None => None,
        }
    }
}

/// Reads the name of a queue file, without its extension.
pub fn parse_queue_file_stem(stem: &str) -> (r: Option<QueueFileName>)
    ensures
        r == queue_file_name(stem@),
{
    let chars = chars_of(stem);
    let at: usize = crate::topic::find_char(chars.as_slice(), '_');
    if at < chars.len() {
        let first = crate::topic::sub_chars(chars.as_slice(), 0, at);
        let second = crate::topic::sub_chars(chars.as_slice(), at + 1, chars.len());
        assert(first@ =~= stem@.take(at as int));
        assert(second@ =~= stem@.skip(at + 1));
        match (parse_number(first.as_slice()), parse_number(second.as_slice())) {
            (Some(ts), Some(seq)) => Some(QueueFileName::Legacy { ts, seq }),
            _ => None,
        }
    } else {
        match parse_number(chars.as_slice()) {
            Some(seq) => Some(QueueFileName::Sequence(seq)),
            None => None,
        }
    }
}

/// The name of a queue file says the sequence number that it was made from.
pub proof fn law_queue_file_name_gives_sequence_back(seq: u64)
    ensures
        queue_file_name(padded(seq as nat, 20)) == Some(QueueFileName::Sequence(seq)),
{
    reveal_with_fuel(numbers_of_width, 21);
    lemma_value_padded(seq as nat, 20);
    law_padded_number_gives_number_back(seq);
    let stem = padded(seq as nat, 20);
    if stem.contains('_') {
        let i = choose|i: int| 0 <= i < stem.len() && stem[i] == '_';
        assert(is_digit(stem[i]));
    }
}

/// The tag of a direction in the name of an in-flight file.
pub open spec fn direction_tag(direction: InflightDirection) -> Seq<char> {
    match direction {
        InflightDirection::Inbound => "inbound"@,
        InflightDirection::Outbound => "outbound"@,
    }
}

/// The name of the file, without extension, that keeps an in-flight message.
pub fn inflight_file_stem(packet_id: u16, direction: InflightDirection) -> (r: String)
    ensures
        r@ == direction_tag(direction) + "_"@ + crate::text::decimal(packet_id as nat),
{
    let tag = match direction {
        InflightDirection::Inbound => "inbound",
        InflightDirection::Outbound => "outbound",
    };
    let number = decimal_text(packet_id as u64);
    crate::text::joined(tag, "_", number.as_str())
}

/// The extension of the temporary file of one write: the process and the number of the write.
pub fn temp_extension(process: u32, write: u64) -> (r: String)
    ensures
        r@ == "tmp."@ + crate::text::decimal(process as nat) + "."@ + crate::text::decimal(
            write as nat,
        ),
{
    let number = decimal_text(process as u64);
    let mut out = crate::text::joined("tmp.", number.as_str(), ".");
    let count = decimal_text(write);
    out.append(count.as_str());
    out
}

proof fn lemma_decimal(n: nat)
    ensures
        crate::text::decimal(n).len() > 0,
        forall|i: int|
            0 <= i < crate::text::decimal(n).len() ==> is_digit(
                #[trigger] crate::text::decimal(n)[i],
            ),
        value(crate::text::decimal(n)) == n,
    decreases n,
{
    let all = crate::text::decimal(n);
    let d = crate::text::digit((n % 10) as int);
    assert(d as int == '0' as int + n % 10);
    if n >= 10 {
        lemma_decimal(n / 10);
        assert(all.drop_last() =~= crate::text::decimal(n / 10));
    } else {
        assert(all.drop_last() =~= Seq::<char>::empty());
        assert(value(Seq::<char>::empty()) == 0);
    }
}

/// Two writes of one process never share a temporary file.
pub proof fn law_temp_files_are_not_shared(process: u32, a: u64, b: u64)
    requires
        "tmp."@ + crate::text::decimal(process as nat) + "."@ + crate::text::decimal(a as nat)
            == "tmp."@ + crate::text::decimal(process as nat) + "."@ + crate::text::decimal(
            b as nat,
        ),
    ensures
        a == b,
{
    let head = "tmp."@ + crate::text::decimal(process as nat) + "."@;
    let x = crate::text::decimal(a as nat);
    let y = crate::text::decimal(b as nat);
    assert((head + x).skip(head.len() as int) =~= x);
    assert((head + y).skip(head.len() as int) =~= y);
    lemma_decimal(a as nat);
    lemma_decimal(b as nat);
}

/// A file name holds no character that stands for something else in a path, in a topic filter or in
/// the shell.
pub proof fn law_filename_is_plain(topic: Seq<char>, i: int)
    requires
        0 <= i < encoded(topic).len(),
    ensures
        ({
            let c = encoded(topic)[i];
            &&& c != '/' && c != '\\' && c != ':' && c != '*' && c != '?' && c != '"'
            &&& c != '<' && c != '>' && c != '|' && c != '\0'
            &&& c != '+' && c != '#' && c != '$'
        }),
{
    law_filename_holds_no_reserved_character(topic, i);
}

/// A topic of letters, digits and the like is its own file name.
pub proof fn law_plain_topic_is_its_filename(topic: Seq<char>)
    requires
        forall|i: int|
            0 <= i < topic.len() ==> ({
                let c = #[trigger] topic[i];
                &&& c != '%' && c != '/' && c != '\\' && c != ':' && c != '*' && c != '?'
                &&& c != '"' && c != '<' && c != '>' && c != '|' && c != '\0'
                &&& c != '+' && c != '#' && c != '$'
            }),
    ensures
        encoded(topic) == topic,
    decreases topic.len(),
{
    if topic.len() > 0 {
        let init = topic.drop_last();
        assert forall|i: int| 0 <= i < init.len() implies ({
            let c = #[trigger] init[i];
            &&& c != '%' && c != '/' && c != '\\' && c != ':' && c != '*' && c != '?'
            &&& c != '"' && c != '<' && c != '>' && c != '|' && c != '\0'
            &&& c != '+' && c != '#' && c != '$'
        }) by {
            assert(init[i] == topic[i]);
        }
        law_plain_topic_is_its_filename(init);
        let c = topic[topic.len() - 1];
        assert(escape(c) is None);
        assert(encoded(topic) =~= topic);
    }
}

/// The name of a file of one topic and the name of another stand next to each other as the topics do.
pub proof fn law_filenames_join(a: Seq<char>, b: Seq<char>)
    ensures
        encoded(a + b) == encoded(a) + encoded(b),
    decreases b.len(),
{
    if b.len() > 0 {
        law_filenames_join(a, b.drop_last());
        assert((a + b).drop_last() =~= a + b.drop_last());
        assert(encoded(a + b) =~= encoded(a) + encoded(b));
    } else {
        assert(a + b =~= a);
        assert(encoded(a) + encoded(b) =~= encoded(a));
    }
}

/// A number that is written out is read back, whether or not a sign stands before it; whatever is read
/// consists of digits alone.
pub proof fn law_number_is_read_back(n: u64, s: Seq<char>, i: int)
    ensures
        parsed(crate::text::decimal(n as nat)) == Some(n),
        parsed(seq!['+'] + crate::text::decimal(n as nat)) == Some(n),
        parsed(s) is Some && 0 <= i < s.len() ==> '0' <= s[i] <= '9' || (i == 0 && s[i] == '+'
            && s.len() > 1),
        parsed(Seq::empty()) is None,
{
    let digits = crate::text::decimal(n as nat);
    lemma_decimal(n as nat);
    assert(is_digit(digits[0]));
    assert(unsigned(digits) == digits);
    let signed = seq!['+'] + digits;
    assert(signed.skip(1) =~= digits);
    assert(unsigned(signed) =~= digits);
    if parsed(s) is Some && 0 <= i < s.len() {
        let d = unsigned(s);
        if d == s {
            assert(is_digit(d[i]));
        } else if i > 0 {
            assert(is_digit(d[i - 1]));
        }
    }
}

/// A file that was named by the moment of writing is taken apart at the underscore.
pub proof fn law_legacy_file_name_is_taken_apart(ts: u64, seq: u64)
    ensures
        queue_file_name(
            crate::text::decimal(ts as nat) + seq!['_'] + crate::text::decimal(seq as nat),
        ) == Some(QueueFileName::Legacy { ts, seq }),
{
    let a = crate::text::decimal(ts as nat);
    let b = crate::text::decimal(seq as nat);
    let stem = a + seq!['_'] + b;
    lemma_decimal(ts as nat);
    lemma_decimal(seq as nat);
    law_number_is_read_back(ts, a, 0);
    law_number_is_read_back(seq, b, 0);
    assert(stem[a.len() as int] == '_');
    assert forall|i: int| 0 <= i < a.len() implies #[trigger] stem[i] != '_' by {
        assert(is_digit(a[i]));
        assert(stem[i] == a[i]);
    }
    lemma_find_at(stem, '_', a.len() as int);
    assert(stem.take(a.len() as int) =~= a);
    assert(stem.skip(a.len() as int + 1) =~= b);
}

proof fn lemma_find_at(s: Seq<char>, c: char, at: int)
    requires
        0 <= at < s.len(),
        s[at] == c,
        forall|i: int| 0 <= i < at ==> #[trigger] s[i] != c,
    ensures
        crate::topic::find(s, c) == at,
    decreases s.len(),
{
    if at > 0 {
        assert(s[0] != c);
        let rest = s.drop_first();
        assert forall|i: int| 0 <= i < at - 1 implies #[trigger] rest[i] != c by {
            assert(rest[i] == s[i + 1]);
        }
        assert(rest[at - 1] == c);
        lemma_find_at(rest, c, at - 1);
    }
}

/// Escapes are read in capital and small letters alike.
pub proof fn law_escapes_are_read_in_either_case(high: char, low: char)
    requires
        'a' <= low <= 'f',
    ensures
        ({
            let capital = (low as int - 32) as char;
            hex_byte(seq![high, low]) == hex_byte(seq![high, capital])
        }),
{
    let capital = (low as int - 32) as char;
    assert(capital as int == low as int - 32);
    assert(hex_digit(low) == hex_digit(capital));
    assert(seq![high, low][0] == high && seq![high, low][1] == low);
    assert(seq![high, capital][0] == high && seq![high, capital][1] == capital);
}

} // verus!

//! Reading per-CPU times from the lines of `/proc/stat`.
use std::collections::BTreeMap;
use vstd::prelude::*;

use crate::text::{
    char_vec, decimal, law_decimal_form, law_decimal_reads_back, law_numbers_within_bound,
    parse_unsigned, unsigned_number,
};

verus! {

broadcast use vstd::laws_cmp::group_laws_cmp;

/// The times that one CPU has counted, in ticks.
#[derive(Clone, Copy, Debug, PartialEq, Eq, Structural)]
pub struct CpuTimes {
    /// Time spent in user, nice, system, irq, softirq and steal.
    pub busy: u64,
    /// `busy` and the time spent in idle and iowait.
    pub total: u64,
}

/// The counters of a CPU add up to more than `u64` holds.
#[derive(Clone, Copy, Debug, PartialEq, Eq, Structural)]
pub struct CounterOverflow;

/// Whether `c` is white space in the sense of Unicode.
pub open spec fn is_white(c: char) -> bool {
    ||| '\u{9}' <= c <= '\u{d}'
    ||| c == '\u{20}'
    ||| c == '\u{85}'
    ||| c == '\u{a0}'
    ||| c == '\u{1680}'
    ||| '\u{2000}' <= c <= '\u{200a}'
    ||| c == '\u{2028}'
    ||| c == '\u{2029}'
    ||| c == '\u{202f}'
    ||| c == '\u{205f}'
    ||| c == '\u{3000}'
}

/// The length of the longest prefix of `s` without white space.
pub open spec fn word_len(s: Seq<char>) -> int
    decreases s.len(),
{
    if s.len() == 0 || is_white(s[0]) {
        0
    } else {
        1 + word_len(s.skip(1))
    }
}

/// The words of `s`: its longest stretches without white space, in order.
pub open spec fn words(s: Seq<char>) -> Seq<Seq<char>>
    decreases s.len(),
{
    if s.len() == 0 {
        Seq::empty()
    } else if is_white(s[0]) {
        words(s.skip(1))
    } else {
        proof {
            lemma_word_len(s.skip(1));
        }
        seq![s.take(1 + word_len(s.skip(1)))] + words(s.skip(1 + word_len(s.skip(1))))
    }
}

/// The words of `s` that write a number of 64 bits, as numbers and in order.
pub open spec fn numbers(s: Seq<Seq<char>>) -> Seq<u64>
    decreases s.len(),
{
    if s.len() == 0 {
        Seq::empty()
    } else {
        match unsigned_number(s.last(), u64::MAX as int) {
            Some(n) => numbers(s.drop_last()).push(n as u64),
            None => numbers(s.drop_last()),
        }
    }
}

/// Whether `s` begins with `cpu` and is not the line that adds up all CPUs.
pub open spec fn names_one_cpu(s: Seq<char>) -> bool {
    &&& s.len() >= 3
    &&& s[0] == 'c'
    &&& s[1] == 'p'
    &&& s[2] == 'u'
    &&& !(s.len() >= 4 && s[3] == ' ')
}

/// The busy time in the counters of a CPU: user, nice, system, irq, softirq, and
/// steal where it is given.
pub open spec fn busy_time(vals: Seq<u64>) -> int {
    vals[0] + vals[1] + vals[2] + vals[5] + vals[6] + if vals.len() > 7 {
        vals[7] as int
    } else {
        0
    }
}

/// The whole time in the counters of a CPU: busy, idle and iowait.
pub open spec fn total_time(vals: Seq<u64>) -> int {
    busy_time(vals) + vals[3] + vals[4]
}

/// The number and the counters of the CPU that a line describes, if it does.
pub open spec fn cpu_line(line: Seq<char>) -> Option<(u32, Seq<u64>)> {
    let parts = words(line);
    if names_one_cpu(line) && parts.len() >= 8 {
        let vals = numbers(parts.skip(1));
        match unsigned_number(parts[0].skip(3), u32::MAX as int) {
            Some(id) => if vals.len() >= 7 {
                Some((id as u32, vals))
            } else {
                None
            },
            None => None,
        }
    } else {
        None
    }
}

/// Whether the counters in `line` add up to more than `u64` holds.
pub open spec fn line_overflows(line: Seq<char>) -> bool {
    cpu_line(line) matches Some((id, vals)) && total_time(vals) > u64::MAX
}

/// The times of all CPUs that `lines` describe; of two lines for one CPU the later
/// counts.
pub open spec fn cpu_table(lines: Seq<String>) -> Map<u32, CpuTimes>
    decreases lines.len(),
{
    if lines.len() == 0 {
        Map::empty()
    } else {
        match cpu_line(lines.last()@) {
            Some((id, vals)) => cpu_table(lines.drop_last()).insert(
                id,
                CpuTimes { busy: busy_time(vals) as u64, total: total_time(vals) as u64 },
            ),
            None => cpu_table(lines.drop_last()),
        }
    }
}

/// Whether `c` is white space in the sense of Unicode.
fn white(c: char) -> (is: bool)
    ensures
        is == is_white(c),
{
    ('\u{9}' <= c && c <= '\u{d}') || c == '\u{20}' || c == '\u{85}' || c == '\u{a0}' || c
        == '\u{1680}' || ('\u{2000}' <= c && c <= '\u{200a}') || c == '\u{2028}' || c
        == '\u{2029}' || c == '\u{202f}' || c == '\u{205f}' || c == '\u{3000}'
}

/// A word ends at white space or at the end of the text.
pub proof fn lemma_word_len(s: Seq<char>)
    ensures
        0 <= word_len(s) <= s.len(),
        word_len(s) < s.len() ==> is_white(s[word_len(s)]),
        forall|i: int| 0 <= i < word_len(s) ==> !is_white(#[trigger] s[i]),
    decreases s.len(),
{
    if s.len() > 0 && !is_white(s[0]) {
        let rest = s.skip(1);
        lemma_word_len(rest);
        assert forall|i: int| 0 <= i < word_len(s) implies !is_white(#[trigger] s[i]) by {
            if i > 0 {
                assert(rest[i - 1] == s[i]);
            }
        }
        if word_len(s) < s.len() {
            assert(rest[word_len(rest)] == s[word_len(s)]);
        }
    }
}

/// A stretch without white space that ends at white space or at the end is a word.
proof fn lemma_word_len_is(s: Seq<char>, n: int)
    requires
        0 <= n <= s.len(),
        n < s.len() ==> is_white(s[n]),
        forall|i: int| 0 <= i < n ==> !is_white(#[trigger] s[i]),
    ensures
        word_len(s) == n,
{
    lemma_word_len(s);
    if word_len(s) < n {
        assert(!is_white(s[word_len(s)]));
    }
    if n < word_len(s) {
        assert(!is_white(s[n]));
    }
}

/// Splits `chars` at white space.
pub fn split_words(chars: &[char]) -> (parts: Vec<Vec<char>>)
    ensures
        parts@.map_values(|w: Vec<char>| w@) == words(chars@),
{
    let mut parts: Vec<Vec<char>> = Vec::new();
    let mut i: usize = 0;
    assert(chars@.skip(0) =~= chars@);
    assert(parts@.map_values(|w: Vec<char>| w@) + words(chars@) =~= words(chars@));
    while i < chars.len()
        invariant
            i <= chars.len(),
            parts@.map_values(|w: Vec<char>| w@) + words(chars@.skip(i as int)) == words(chars@),
        decreases chars.len() - i,
    {
        let ghost rest = chars@.skip(i as int);
        if white(chars[i]) {
            assert(rest.skip(1) =~= chars@.skip(i + 1));
            i = i + 1;
        } else {
            let start: usize = i;
            let mut word: Vec<char> = Vec::new();
            while i < chars.len() && !white(chars[i])
                invariant
                    start <= i <= chars.len(),
                    rest == chars@.skip(start as int),
                    word@ == rest.take(i - start),
                    forall|j: int| 0 <= j < i - start ==> !is_white(#[trigger] rest[j]),
                decreases chars.len() - i,
            {
                word.push(chars[i]);
                assert(rest[i - start] == chars@[i as int]);
                assert(word@ =~= rest.take(i - start + 1));
                i = i + 1;
            }
            proof {
                if i < chars.len() {
                    assert(rest[i - start] == chars@[i as int]);
                }
                lemma_word_len_is(rest, i - start);
                assert(word_len(rest) == 1 + word_len(rest.skip(1)));
                assert(rest.skip(i - start) =~= chars@.skip(i as int));
                assert(words(rest) == seq![word@] + words(chars@.skip(i as int)));
            }
            let ghost before = parts@.map_values(|w: Vec<char>| w@);
            parts.push(word);
            proof {
                assert(parts@.map_values(|w: Vec<char>| w@) =~= before.push(word@));
                assert(before.push(word@) + words(chars@.skip(i as int)) =~= before + (seq![word@]
                    + words(chars@.skip(i as int))));
            }
        }
    }
    assert(chars@.skip(i as int) =~= Seq::<char>::empty());
    assert(parts@.map_values(|w: Vec<char>| w@) =~= words(chars@));
    parts
}

/// The parts from the second on that write a number of 64 bits.
fn read_numbers(parts: &Vec<Vec<char>>) -> (vals: Vec<u64>)
    requires
        parts@.len() >= 1,
    ensures
        vals@ == numbers(parts@.map_values(|w: Vec<char>| w@).skip(1)),
{
    let ghost texts = parts@.map_values(|w: Vec<char>| w@).skip(1);
    let mut vals: Vec<u64> = Vec::new();
    let mut i: usize = 1;
    assert(texts.take(0) =~= Seq::<Seq<char>>::empty());
    while i < parts.len()
        invariant
            1 <= i <= parts.len(),
            texts == parts@.map_values(|w: Vec<char>| w@).skip(1),
            vals@ == numbers(texts.take(i - 1)),
        decreases parts.len() - i,
    {
        proof {
            assert(texts.take(i as int).drop_last() =~= texts.take(i - 1));
            assert(texts.take(i as int).last() == parts@[i as int]@);
        }
        if let Some(n) = parse_unsigned(parts[i].as_slice(), u64::MAX) {
            vals.push(n);
        }
        i = i + 1;
    }
    assert(texts.take(i - 1) =~= texts);
    vals
}

/// The sum of three numbers, if `u64` holds it.
fn sum3(a: u64, b: u64, c: u64) -> (sum: Option<u64>)
    ensures
        match sum {
            Some(n) => n == a + b + c,
            None => a + b + c > u64::MAX,
        },
{
    match a.checked_add(b) {
        Some(ab) => ab.checked_add(c),
        None => None,
    }
}

/// Adds up the counters of one CPU.
fn times_of(vals: &Vec<u64>) -> (times: Option<CpuTimes>)
    requires
        vals@.len() >= 7,
    ensures
        match times {
            Some(t) => t.busy == busy_time(vals@) && t.total == total_time(vals@),
            None => total_time(vals@) > u64::MAX,
        },
{
    let steal: u64 = if vals.len() > 7 {
        vals[7]
    } else {
        0
    };
    let first: u64 = match sum3(vals[0], vals[1], vals[2]) {
        Some(n) => n,
        None => {
            return None;
        },
    };
    let second: u64 = match sum3(vals[5], vals[6], steal) {
        Some(n) => n,
        None => {
            return None;
        },
    };
    let busy: u64 = match first.checked_add(second) {
        Some(n) => n,
        None => {
            return None;
        },
    };
    match sum3(busy, vals[3], vals[4]) {
        Some(total) => Some(CpuTimes { busy, total }),
        None => None,
    }
}

/// Reads one line. A line that does not describe a CPU gives nothing.
pub fn read_cpu_line(line: &str) -> (times: Result<Option<(u32, CpuTimes)>, CounterOverflow>)
    ensures
        match times {
            Ok(Some((cpu, t))) => cpu_line(line@) matches Some((id, vals)) && id == cpu && t.busy
                == busy_time(vals) && t.total == total_time(vals),
            Ok(None) => cpu_line(line@) is None,
            Err(_) => line_overflows(line@),
        },
{
    let chars: Vec<char> = char_vec(line);
    if chars.len() < 3 || chars[0] != 'c' || chars[1] != 'p' || chars[2] != 'u' {
        return Ok(None);
    }
    if chars.len() >= 4 && chars[3] == ' ' {
        return Ok(None);
    }
    let parts: Vec<Vec<char>> = split_words(chars.as_slice());
    let ghost texts = parts@.map_values(|w: Vec<char>| w@);
    assert(texts == words(line@));
    if parts.len() < 8 {
        return Ok(None);
    }
    let head: &Vec<char> = &parts[0];
    proof {
        assert(texts[0] == head@);
        lemma_first_word(line@);
    }
    let mut name: Vec<char> = Vec::new();
    let mut i: usize = 3;
    while i < head.len()
        invariant
            3 <= i <= head.len(),
            name@ == head@.subrange(3, i as int),
        decreases head.len() - i,
    {
        name.push(head[i]);
        assert(name@ =~= head@.subrange(3, i + 1));
        i = i + 1;
    }
    assert(name@ =~= head@.skip(3));
    let cpu: u32 = match parse_unsigned(name.as_slice(), u32::MAX as u64) {
        Some(id) => id as u32,
        None => {
            return Ok(None);
        },
    };
    let vals: Vec<u64> = read_numbers(&parts);
    if vals.len() < 7 {
        return Ok(None);
    }
    match times_of(&vals) {
        Some(t) => Ok(Some((cpu, t))),
        None => Err(CounterOverflow),
    }
}

/// The first word of a line that begins with `cpu` does so too.
proof fn lemma_first_word(line: Seq<char>)
    requires
        names_one_cpu(line),
    ensures
        words(line).len() > 0,
        words(line)[0].len() >= 3,
{
    let n = 1 + word_len(line.skip(1));
    lemma_word_len(line);
    assert(word_len(line) == n);
    if n < 3 {
        assert(is_white(line[n]));
    }
}

/// Reads the times of all CPUs from the lines of `/proc/stat`.
pub fn read_cpu_times(lines: &Vec<String>) -> (table: Result<
    BTreeMap<u32, CpuTimes>,
    CounterOverflow,
>)
    ensures
        match table {
            Ok(t) => t@ == cpu_table(lines@) && forall|i: int|
                0 <= i < lines@.len() ==> !line_overflows(#[trigger] lines@[i]@),
            Err(_) => exists|i: int| 0 <= i < lines@.len() && line_overflows(#[trigger] lines@[i]@),
        },
{
    let mut table: BTreeMap<u32, CpuTimes> = BTreeMap::new();
    let mut i: usize = 0;
    assert(lines@.take(0) =~= Seq::<String>::empty());
    while i < lines.len()
        invariant
            i <= lines.len(),
            table@ == cpu_table(lines@.take(i as int)),
            forall|j: int| 0 <= j < i ==> !line_overflows(#[trigger] lines@[j]@),
        decreases lines.len() - i,
    {
        proof {
            assert(lines@.take(i + 1).drop_last() =~= lines@.take(i as int));
            assert(lines@.take(i + 1).last() == lines@[i as int]);
        }
        match read_cpu_line(lines[i].as_str()) {
            Ok(Some((cpu, times))) => {
                table.insert(cpu, times);
            },
            Ok(None) => {},
            Err(e) => {
                return Err(e);
            },
        }
        i = i + 1;
    }
    assert(lines@.take(i as int) =~= lines@);
    Ok(table)
}

/// White space, by the numbers of its characters.
pub proof fn law_white_space(c: char)
    ensures
        is_white(c) <==> {
            ||| 9 <= c as int <= 13
            ||| c as int == 32
            ||| c as int == 133
            ||| c as int == 160
            ||| c as int == 5760
            ||| 8192 <= c as int <= 8202
            ||| c as int == 8232
            ||| c as int == 8233
            ||| c as int == 8239
            ||| c as int == 8287
            ||| c as int == 12288
        },
{
}

/// A text without white space is one word, or none where it is empty.
pub proof fn law_word_alone(s: Seq<char>)
    requires
        forall|i: int| 0 <= i < s.len() ==> !is_white(#[trigger] s[i]),
    ensures
        s.len() == 0 ==> words(s) == Seq::<Seq<char>>::empty(),
        s.len() > 0 ==> words(s) == seq![s],
{
    if s.len() > 0 {
        lemma_word_len_is(s, s.len() as int);
        assert(word_len(s) == 1 + word_len(s.skip(1)));
        assert(s.take(s.len() as int) =~= s);
        assert(s.skip(s.len() as int) =~= Seq::<char>::empty());
        assert(words(Seq::<char>::empty()) == Seq::<Seq<char>>::empty());
        assert(!is_white(s[0]));
        assert(words(s) =~= seq![s]);
    }
}

/// White space parts a text: its words are those before it and then those after it.
pub proof fn law_white_space_parts_words(a: Seq<char>, c: char, b: Seq<char>)
    requires
        is_white(c),
    ensures
        words(a.push(c) + b) == words(a) + words(b),
    decreases a.len(),
{
    let s = a.push(c) + b;
    if a.len() == 0 {
        assert(s[0] == c);
        assert(s.skip(1) =~= b);
        assert(words(a) + words(b) =~= words(b));
    } else if is_white(a[0]) {
        assert(s[0] == a[0]);
        assert(s.skip(1) =~= a.skip(1).push(c) + b);
        law_white_space_parts_words(a.skip(1), c, b);
    } else {
        let n = word_len(a);
        lemma_word_len(a);
        assert(s[0] == a[0]);
        assert forall|i: int| 0 <= i < n implies !is_white(#[trigger] s[i]) by {
            assert(s[i] == a[i]);
        }
        assert(is_white(s[n])) by {
            if n < a.len() {
                assert(s[n] == a[n]);
            } else {
                assert(s[n] == c);
            }
        }
        lemma_word_len_is(s, n);
        assert(s.take(n) =~= a.take(n));
        assert(s.skip(n) =~= a.skip(n).push(c) + b);
        law_white_space_parts_words(a.skip(n), c, b);
        assert(words(s) =~= seq![a.take(n)] + words(a.skip(n).push(c) + b));
        assert(words(a) =~= seq![a.take(n)] + words(a.skip(n)));
        assert(words(s) =~= words(a) + words(b));
    }
}

/// The numbers of a list of words are read word by word, in order; a word that is no number
/// is passed over.
pub proof fn law_numbers_word_by_word(s: Seq<Seq<char>>, word: Seq<char>)
    ensures
        numbers(Seq::empty()) == Seq::<u64>::empty(),
        unsigned_number(word, u64::MAX as int) matches Some(n) ==> numbers(s.push(word))
            == numbers(s).push(n as u64),
        unsigned_number(word, u64::MAX as int) is None ==> numbers(s.push(word)) == numbers(s),
{
    assert(s.push(word).drop_last() =~= s);
}

/// Busy time is that of user, nice, system, irq, softirq and, where it is given, steal; the
/// whole time has idle and iowait in it as well. Whatever follows counts for neither.
pub proof fn law_times_of_a_cpu(vals: Seq<u64>)
    requires
        vals.len() >= 7,
    ensures
        vals.len() == 7 ==> busy_time(vals) == vals[0] + vals[1] + vals[2] + vals[5] + vals[6],
        vals.len() >= 8 ==> busy_time(vals) == vals[0] + vals[1] + vals[2] + vals[5] + vals[6]
            + vals[7],
        total_time(vals) - busy_time(vals) == vals[3] + vals[4],
        vals.len() >= 8 ==> busy_time(vals) == busy_time(vals.take(8)) && total_time(vals)
            == total_time(vals.take(8)),
{
}

/// `vals` in decimal, with a space in front of each.
pub open spec fn spaced(vals: Seq<u64>) -> Seq<char>
    decreases vals.len(),
{
    if vals.len() == 0 {
        Seq::empty()
    } else {
        spaced(vals.drop_last()).push(' ') + decimal(vals.last() as nat)
    }
}

/// Digits are no white space.
proof fn lemma_decimal_is_a_word(n: nat)
    ensures
        words(decimal(n)) == seq![decimal(n)],
{
    law_decimal_form(n, 0);
    assert forall|i: int| 0 <= i < decimal(n).len() implies !is_white(#[trigger] decimal(n)[i]) by {
        law_decimal_form(n, i);
    }
    law_word_alone(decimal(n));
}

/// The words and numbers of a label that is followed by numbers.
proof fn lemma_spaced_words(label: Seq<char>, vals: Seq<u64>)
    requires
        words(label) == seq![label],
    ensures
        words(label + spaced(vals)).len() == vals.len() + 1,
        words(label + spaced(vals))[0] == label,
        numbers(words(label + spaced(vals)).skip(1)) == vals,
    decreases vals.len(),
{
    if vals.len() == 0 {
        assert(label + spaced(vals) =~= label);
        assert(seq![label].skip(1) =~= Seq::<Seq<char>>::empty());
        assert(vals =~= Seq::<u64>::empty());
    } else {
        let rest = vals.drop_last();
        let last = decimal(vals.last() as nat);
        lemma_spaced_words(label, rest);
        lemma_decimal_is_a_word(vals.last() as nat);
        law_white_space_parts_words(label + spaced(rest), ' ', last);
        assert(label + spaced(vals) =~= (label + spaced(rest)).push(' ') + last);
        let before = words(label + spaced(rest));
        let all = words(label + spaced(vals));
        assert(all =~= before.push(last));
        assert(all.skip(1) =~= before.skip(1).push(last));
        law_numbers_word_by_word(before.skip(1), last);
        law_decimal_reads_back(vals.last() as nat, u64::MAX as int);
        assert(vals =~= rest.push(vals.last()));
    }
}

/// The line of a CPU is read back: `cpu`, its number, and at least seven counters with a
/// space in front of each give that number and those counters.
pub proof fn law_cpu_line_reads_back(id: u32, vals: Seq<u64>)
    requires
        vals.len() >= 7,
    ensures
        cpu_line(seq!['c', 'p', 'u'] + decimal(id as nat) + spaced(vals)) == Some((id, vals)),
{
    let number = decimal(id as nat);
    let label = seq!['c', 'p', 'u'] + number;
    let line = label + spaced(vals);
    law_decimal_form(id as nat, 0);
    assert forall|i: int| 0 <= i < label.len() implies !is_white(#[trigger] label[i]) by {
        if i >= 3 {
            law_decimal_form(id as nat, i - 3);
            assert(label[i] == number[i - 3]);
        }
    }
    law_word_alone(label);
    lemma_spaced_words(label, vals);
    assert(line[3] == number[0]);
    assert(label.skip(3) =~= number);
    law_decimal_reads_back(id as nat, u32::MAX as int);
}

/// Which lines describe a CPU: those that begin with `cpu`, not followed by a space, whose
/// first word goes on with the number of the CPU, and which have at least eight words, of
/// which those behind the first hold at least seven numbers. The counters are these numbers.
pub proof fn law_lines_of_cpus(line: Seq<char>)
    ensures
        cpu_line(line) matches Some((id, vals)) ==> {
            &&& line.len() >= 4
            &&& line.take(3) == seq!['c', 'p', 'u']
            &&& line[3] != ' '
            &&& words(line).len() >= 8
            &&& vals.len() >= 7
            &&& vals == numbers(words(line).skip(1))
            &&& unsigned_number(words(line)[0].skip(3), u32::MAX as int) == Some(id as int)
        },
        cpu_line(line) is None ==> {
            ||| line.len() < 4
            ||| line.take(3) != seq!['c', 'p', 'u']
            ||| line[3] == ' '
            ||| words(line).len() < 8
            ||| numbers(words(line).skip(1)).len() < 7
            ||| unsigned_number(words(line)[0].skip(3), u32::MAX as int) is None
        },
{
    if cpu_line(line) is Some {
        law_numbers_within_bound(words(line)[0].skip(3), u32::MAX as int);
        assert(line.take(3) =~= seq!['c', 'p', 'u']);
        if line.len() == 3 {
            assert forall|i: int| 0 <= i < line.len() implies !is_white(#[trigger] line[i]) by {}
            law_word_alone(line);
        }
    } else if line.len() >= 4 && line.take(3) == seq!['c', 'p', 'u'] {
        assert(line[0] == line.take(3)[0]);
        assert(line[1] == line.take(3)[1]);
        assert(line[2] == line.take(3)[2]);
    }
}

/// A line overflows if and only if it describes a CPU whose counters, up to steal, add up
/// to more than 64 bits hold.
pub proof fn law_when_a_line_overflows(line: Seq<char>)
    ensures
        cpu_line(line) is None ==> !line_overflows(line),
        cpu_line(line) matches Some((id, vals)) ==> {
            &&& vals.len() == 7 ==> (line_overflows(line) <==> vals[0] + vals[1] + vals[2] + vals[3]
                + vals[4] + vals[5] + vals[6] > u64::MAX)
            &&& vals.len() >= 8 ==> (line_overflows(line) <==> vals[0] + vals[1] + vals[2] + vals[3]
                + vals[4] + vals[5] + vals[6] + vals[7] > u64::MAX)
        },
{
}

/// Whether `line` describes `cpu`.
pub open spec fn describes_cpu(line: Seq<char>, cpu: u32) -> bool {
    cpu_line(line) matches Some((id, vals)) && id == cpu
}

/// Of several lines for one CPU the last one counts: the table holds its busy time, and its
/// idle and iowait time on top of that.
pub proof fn law_last_line_of_a_cpu_counts(
    lines: Seq<String>,
    cpu: u32,
    vals: Seq<u64>,
    i: int,
)
    requires
        0 <= i < lines.len(),
        cpu_line(lines[i]@) == Some((cpu, vals)),
        !line_overflows(lines[i]@),
        forall|j: int| i < j < lines.len() ==> !describes_cpu(#[trigger] lines[j]@, cpu),
    ensures
        ({
            let times = cpu_table(lines)[cpu];
            &&& cpu_table(lines).contains_key(cpu)
            &&& times.total - times.busy == vals[3] + vals[4]
            &&& vals.len() == 7 ==> times.busy == vals[0] + vals[1] + vals[2] + vals[5] + vals[6]
            &&& vals.len() >= 8 ==> times.busy == vals[0] + vals[1] + vals[2] + vals[5] + vals[6]
                + vals[7]
        }),
    decreases lines.len(),
{
    let rest = lines.drop_last();
    if i < lines.len() - 1 {
        assert forall|j: int| i < j < rest.len() implies !describes_cpu(
            #[trigger] rest[j]@,
            cpu,
        ) by {
            assert(rest[j] == lines[j]);
        }
        law_last_line_of_a_cpu_counts(rest, cpu, vals, i);
        assert(!describes_cpu(lines[lines.len() - 1]@, cpu));
    }
}

/// A CPU that no line describes is not in the table.
pub proof fn law_undescribed_cpu_is_absent(lines: Seq<String>, cpu: u32)
    requires
        forall|j: int| 0 <= j < lines.len() ==> !describes_cpu(#[trigger] lines[j]@, cpu),
    ensures
        !cpu_table(lines).contains_key(cpu),
    decreases lines.len(),
{
    if lines.len() > 0 {
        let rest = lines.drop_last();
        assert forall|j: int| 0 <= j < rest.len() implies !describes_cpu(
            #[trigger] rest[j]@,
            cpu,
        ) by {
            assert(rest[j] == lines[j]);
        }
        law_undescribed_cpu_is_absent(rest, cpu);
        assert(!describes_cpu(lines[lines.len() - 1]@, cpu));
    }
}

} // verus!

//! What holds of a policy file as a whole: only the words of its rules matter.

use crate::addr;
use crate::addr::Ipv4Addr;
use crate::exit_policy;
use crate::exit_policy::{
    ExitPolicy, ExitRule, Line, PolicyAction, PolicyError, PolicyErrorView,
};
use crate::text;
use vstd::prelude::*;

verus! {

/// A line in front of its comment.
pub open spec fn code_of(line: Seq<char>) -> Seq<char> {
    line.take(text::find_from(line, '#', 0))
}

pub open spec fn first_word(s: Seq<char>) -> Seq<char> {
    let word = text::skip_white(s, 0);
    s.subrange(word, text::skip_word(s, word))
}

pub open spec fn second_word(s: Seq<char>) -> Seq<char> {
    let word = text::skip_white(s, text::skip_word(s, text::skip_white(s, 0)));
    s.subrange(word, text::skip_word(s, word))
}

/// Whether a line is blank, or holds a comment only.
pub open spec fn is_blank(line: Seq<char>) -> bool {
    first_word(code_of(line)).len() == 0
}

/// Whether two lines say the same: the same action, in any mix of capitals and small letters, and the
/// same target.
pub open spec fn says_same(a: Seq<char>, b: Seq<char>) -> bool {
    &&& text::lower(first_word(code_of(a))) == text::lower(first_word(code_of(b)))
    &&& second_word(code_of(a)) == second_word(code_of(b))
}

/// The lines of `s` that begin at `i` or later.
pub open spec fn lines_from(s: Seq<char>, i: nat) -> Seq<Seq<char>>
    decreases s.len() + 1 - i,
{
    if i >= s.len() {
        Seq::empty()
    } else {
        proof {
            text::lemma_find_from(s, '\n', i as int);
        }
        let end = text::find_from(s, '\n', i as int);
        seq![s.subrange(i as int, end)] + lines_from(s, (end + 1) as nat)
    }
}

/// The lines of a text.
pub open spec fn lines(s: Seq<char>) -> Seq<Seq<char>> {
    lines_from(s, 0)
}

/// The lines that are not blank.
pub open spec fn rule_lines(list: Seq<Seq<char>>) -> Seq<Seq<char>>
    decreases list.len(),
{
    if list.len() == 0 {
        Seq::empty()
    } else if is_blank(list[0]) {
        rule_lines(list.drop_first())
    } else {
        seq![list[0]] + rule_lines(list.drop_first())
    }
}

proof fn lemma_skips(s: Seq<char>, i: int)
    requires
        0 <= i <= s.len(),
    ensures
        i <= text::skip_white(s, i) <= s.len(),
        i <= text::skip_word(s, i) <= s.len(),
        text::skip_white(s, i) < s.len() ==> !text::is_white(s[text::skip_white(s, i)]),
        i < s.len() && !text::is_white(s[i]) ==> text::skip_word(s, i) > i,
    decreases s.len() - i,
{
    if i < s.len() {
        lemma_skips(s, i + 1);
    }
}

/// A line is read by its two words alone.
proof fn lemma_words_decide(a: Seq<char>, b: Seq<char>)
    requires
        says_same(a, b),
    ensures
        exit_policy::parse_line(a) == exit_policy::parse_line(b),
        exit_policy::parse_line(a) is Blank <==> is_blank(a),
        is_blank(a) == is_blank(b),
{
    lemma_code_words(code_of(a));
    lemma_code_words(code_of(b));
    text::lemma_find_from(a, '#', 0);
    text::lemma_find_from(b, '#', 0);
    assert(text::lower(first_word(code_of(a))).len() == first_word(code_of(a)).len());
    assert(text::lower(first_word(code_of(b))).len() == first_word(code_of(b)).len());
}

proof fn lemma_code_words(s: Seq<char>)
    ensures
        exit_policy::parse_code(s) == if first_word(s).len() == 0 {
            Line::Blank
        } else {
            match exit_policy::parse_action(first_word(s)) {
                None => Line::Bad(
                    exit_policy::PolicyErrorKind::UnknownAction,
                    text::lower(first_word(s)),
                ),
                Some(action) => if second_word(s).len() == 0 {
                    Line::Bad(exit_policy::PolicyErrorKind::MissingTarget, Seq::empty())
                } else {
                    exit_policy::parse_target(action, second_word(s))
                },
            }
        },
{
    lemma_skips(s, 0);
    let word = text::skip_white(s, 0);
    lemma_skips(s, word);
    let end = text::skip_word(s, word);
    lemma_skips(s, end);
    let target = text::skip_white(s, end);
    lemma_skips(s, target);
}

/// The rules of these lines, behind the rules that earlier lines gave; the first bad line decides.
pub open spec fn parse_list(list: Seq<Seq<char>>, count: nat, rules: Seq<ExitRule>) -> Result<
    Seq<ExitRule>,
    PolicyErrorView,
>
    decreases list.len(),
{
    if list.len() == 0 {
        Ok(rules)
    } else {
        match exit_policy::parse_line(list[0]) {
            Line::Blank => parse_list(list.drop_first(), count + 1, rules),
            Line::Rule(rule) => parse_list(list.drop_first(), count + 1, rules.push(rule)),
            Line::Bad(kind, text) => Err(PolicyErrorView { line: count + 1, kind, text }),
        }
    }
}

proof fn lemma_lines(s: Seq<char>, i: nat, count: nat, rules: Seq<ExitRule>)
    ensures
        exit_policy::parse_lines(s, i, count, rules) == parse_list(
            lines_from(s, i),
            count,
            rules,
        ),
    decreases s.len() + 1 - i,
{
    if i < s.len() {
        text::lemma_find_from(s, '\n', i as int);
        let end = text::find_from(s, '\n', i as int);
        let list = lines_from(s, i);
        assert(list[0] == s.subrange(i as int, end));
        assert(list.drop_first() =~= lines_from(s, (end + 1) as nat));
        match exit_policy::parse_line(list[0]) {
            Line::Blank => lemma_lines(s, (end + 1) as nat, count + 1, rules),
            Line::Rule(rule) => lemma_lines(s, (end + 1) as nat, count + 1, rules.push(rule)),
            Line::Bad(_, _) => {},
        }
    }
}

/// Whether the rules of two lists of lines say the same, one for one.
pub open spec fn say_same(a: Seq<Seq<char>>, b: Seq<Seq<char>>) -> bool {
    &&& a.len() == b.len()
    &&& forall|i: int| 0 <= i < a.len() ==> says_same(#[trigger] a[i], b[i])
}

proof fn lemma_lists(
    a: Seq<Seq<char>>,
    b: Seq<Seq<char>>,
    i: nat,
    j: nat,
    rules: Seq<ExitRule>,
)
    requires
        say_same(rule_lines(a), rule_lines(b)),
    ensures
        parse_list(a, i, rules) is Ok <==> parse_list(b, j, rules) is Ok,
        parse_list(a, i, rules) is Ok ==> parse_list(a, i, rules) == parse_list(b, j, rules),
    decreases a.len() + b.len(),
{
    if a.len() > 0 && is_blank(a[0]) {
        lemma_words_decide(a[0], a[0]);
        lemma_lists(a.drop_first(), b, i + 1, j, rules);
    } else if b.len() > 0 && is_blank(b[0]) {
        lemma_words_decide(b[0], b[0]);
        lemma_lists(a, b.drop_first(), i, j + 1, rules);
    } else if a.len() > 0 {
        let ra = rule_lines(a);
        let rb = rule_lines(b);
        assert(ra[0] == a[0]);
        assert(b.len() > 0);
        assert(rb[0] == b[0]);
        lemma_words_decide(a[0], b[0]);
        let ta = rule_lines(a.drop_first());
        let tb = rule_lines(b.drop_first());
        assert forall|k: int| 0 <= k < ta.len() implies says_same(#[trigger] ta[k], tb[k]) by {
            assert(ra[k + 1] == ta[k]);
            assert(rb[k + 1] == tb[k]);
        }
        match exit_policy::parse_line(a[0]) {
            Line::Rule(rule) => lemma_lists(
                a.drop_first(),
                b.drop_first(),
                i + 1,
                j + 1,
                rules.push(rule),
            ),
            _ => {},
        }
    }
}

/// Only the words of the rules matter. Two texts whose lines that are not blank say the same, one for
/// one, are both accepted or both refused, and give the same rules. So blank lines, comments, white
/// space and the case of the action change nothing.
pub proof fn law_only_words_matter(a: Seq<char>, b: Seq<char>)
    requires
        say_same(rule_lines(lines(a)), rule_lines(lines(b))),
    ensures
        exit_policy::parse_policy(a) is Ok <==> exit_policy::parse_policy(b) is Ok,
        exit_policy::parse_policy(a) is Ok ==> exit_policy::parse_policy(a)
            == exit_policy::parse_policy(b),
{
    lemma_lines(a, 0, 0, Seq::empty());
    lemma_lines(b, 0, 0, Seq::empty());
    lemma_lists(lines(a), lines(b), 0, 0, Seq::empty());
}

pub open spec fn all_white(s: Seq<char>) -> bool {
    forall|i: int| 0 <= i < s.len() ==> text::is_white(#[trigger] s[i])
}

proof fn lemma_skips_behind(s: Seq<char>, white: Seq<char>, i: int)
    requires
        0 <= i <= s.len() + white.len(),
        all_white(white),
    ensures
        i <= s.len() ==> text::skip_word(s + white, i) == text::skip_word(s, i),
        i <= s.len() && text::skip_white(s, i) < s.len() ==> text::skip_white(s + white, i)
            == text::skip_white(s, i),
        (i <= s.len() ==> text::skip_white(s, i) == s.len()) ==> text::skip_white(s + white, i)
            == s.len() + white.len(),
    decreases s.len() + white.len() - i,
{
    let all = s + white;
    if i < s.len() {
        assert(all[i] == s[i]);
        lemma_skips(s, i);
        lemma_skips(s, i + 1);
        lemma_skips_behind(s, white, i + 1);
    } else if i < all.len() {
        assert(all[i] == white[i - s.len()]);
        lemma_skips_behind(s, white, i + 1);
    }
}

/// A line says the same with white space and a comment behind it. Behind a comment anything may
/// stand.
pub proof fn law_line_ends_do_not_matter(line: Seq<char>, white: Seq<char>, comment: Seq<char>)
    requires
        line.contains('#') || (all_white(white) && (comment.len() > 0 ==> comment[0] == '#')),
    ensures
        says_same(line, line + white + comment),
{
    let all = line + white + comment;
    text::lemma_find_from(line, '#', 0);
    text::lemma_find_from(all, '#', 0);
    let i = text::find_from(all, '#', 0);
    let j = text::find_from(line, '#', 0);
    if line.contains('#') {
        let k = choose|k: int| 0 <= k < line.len() && line[k] == '#';
        assert(all[k] == '#');
        assert(j < line.len());
        assert(all[j] == '#');
        assert(i <= j);
        assert(line[i] == all[i]);
        assert(code_of(all) =~= code_of(line));
    } else {
        lemma_line_end(line, white, comment);
    }
}

proof fn lemma_line_end(line: Seq<char>, white: Seq<char>, comment: Seq<char>)
    requires
        !line.contains('#'),
        all_white(white),
        comment.len() > 0 ==> comment[0] == '#',
    ensures
        says_same(line, line + white + comment),
{
    let all = line + white + comment;
    let s = line + white;
    text::lemma_find_from(line, '#', 0);
    text::lemma_find_from(all, '#', 0);
    let i = text::find_from(all, '#', 0);
    let j = text::find_from(line, '#', 0);
    if j < line.len() {
        assert(line.contains(line[j]));
    }
    if i < s.len() {
        assert(all[i] == s[i]);
        if i < line.len() {
            assert(line.contains(line[i]));
        } else {
            assert(text::is_white(white[i - line.len()]));
        }
    }
    if comment.len() > 0 {
        assert(all[s.len() as int] == comment[0]);
    }
    assert(code_of(all) =~= s);
    assert(code_of(line) =~= line);
    lemma_skips(line, 0);
    lemma_skips_behind(line, white, 0);
    let word = text::skip_white(line, 0);
    lemma_skips(line, word);
    lemma_skips_behind(line, white, word);
    lemma_skips_behind(line, white, s.len() as int);
    let end = text::skip_word(line, word);
    lemma_skips(line, end);
    lemma_skips_behind(line, white, end);
    let target = text::skip_white(line, end);
    lemma_skips(line, target);
    lemma_skips_behind(line, white, target);
    assert(first_word(s) =~= first_word(line));
    assert(second_word(s) =~= second_word(line));
}

proof fn lemma_skips_shift(white: Seq<char>, s: Seq<char>, i: int)
    requires
        0 <= i <= s.len(),
    ensures
        text::skip_white(white + s, white.len() + i) == white.len() + text::skip_white(s, i),
        text::skip_word(white + s, white.len() + i) == white.len() + text::skip_word(s, i),
    decreases s.len() - i,
{
    if i < s.len() {
        assert((white + s)[white.len() + i] == s[i]);
        lemma_skips_shift(white, s, i + 1);
    }
}

proof fn lemma_skip_indent(white: Seq<char>, s: Seq<char>, i: int)
    requires
        0 <= i <= white.len(),
        all_white(white),
    ensures
        text::skip_white(white + s, i) == text::skip_white(white + s, white.len() as int),
    decreases white.len() - i,
{
    if i < white.len() {
        assert((white + s)[i] == white[i]);
        lemma_skip_indent(white, s, i + 1);
    }
}

/// A line says the same with white space in front of it.
pub proof fn law_indentation_does_not_matter(white: Seq<char>, line: Seq<char>)
    requires
        all_white(white),
    ensures
        says_same(line, white + line),
{
    let all = white + line;
    text::lemma_find_from(line, '#', 0);
    text::lemma_find_from(all, '#', 0);
    let i = text::find_from(all, '#', 0);
    let j = text::find_from(line, '#', 0);
    assert(i == white.len() + j) by {
        if i < white.len() {
            assert(text::is_white(white[i]));
        } else if i < white.len() + j {
            assert(all[i] == line[i - white.len()]);
        }
        if j < line.len() {
            assert(all[white.len() + j] == line[j]);
        }
    }
    let s = code_of(line);
    let t = code_of(all);
    assert(t =~= white + s);
    lemma_skip_indent(white, s, 0);
    lemma_skips_shift(white, s, 0);
    lemma_skips(s, 0);
    let word = text::skip_white(s, 0);
    lemma_skips_shift(white, s, word);
    lemma_skips(s, word);
    let end = text::skip_word(s, word);
    lemma_skips_shift(white, s, end);
    lemma_skips(s, end);
    let target = text::skip_white(s, end);
    lemma_skips_shift(white, s, target);
    lemma_skips(s, target);
    assert(first_word(t) =~= first_word(s));
    assert(second_word(t) =~= second_word(s));
}

/// Whether `b` is `a` with letters of its first word changed in case.
pub open spec fn recased(a: Seq<char>, b: Seq<char>) -> bool {
    let word = text::skip_white(code_of(a), 0);
    let end = text::skip_word(code_of(a), word);
    &&& a.len() == b.len()
    &&& forall|i: int|
        0 <= i < a.len() ==> text::lower_char(#[trigger] a[i]) == text::lower_char(b[i]) && (word
            <= i < end || a[i] == b[i])
}

proof fn lemma_same_skips(a: Seq<char>, b: Seq<char>, i: int)
    requires
        0 <= i <= a.len(),
        a.len() == b.len(),
        forall|k: int|
            0 <= k < a.len() ==> text::is_white(#[trigger] a[k]) == text::is_white(b[k]),
    ensures
        text::skip_white(a, i) == text::skip_white(b, i),
        text::skip_word(a, i) == text::skip_word(b, i),
    decreases a.len() - i,
{
    if i < a.len() {
        assert(text::is_white(a[i]) == text::is_white(b[i]));
        lemma_same_skips(a, b, i + 1);
    }
}

/// A line says the same with letters of its action changed in case.
pub proof fn law_case_of_the_action_does_not_matter(a: Seq<char>, b: Seq<char>)
    requires
        recased(a, b),
    ensures
        says_same(a, b),
{
    text::lemma_find_from(a, '#', 0);
    text::lemma_find_from(b, '#', 0);
    let i = text::find_from(a, '#', 0);
    let j = text::find_from(b, '#', 0);
    assert(i == j) by {
        if i < j {
            assert(text::lower_char(a[i]) == text::lower_char(b[i]));
        }
        if j < i {
            assert(text::lower_char(a[j]) == text::lower_char(b[j]));
        }
    }
    let s = code_of(a);
    let t = code_of(b);
    assert forall|k: int| 0 <= k < s.len() implies text::is_white(#[trigger] s[k])
        == text::is_white(t[k]) by {
        assert(s[k] == a[k] && t[k] == b[k]);
        assert(text::lower_char(a[k]) == text::lower_char(b[k]));
    }
    lemma_skips(s, 0);
    lemma_same_skips(s, t, 0);
    let word = text::skip_white(s, 0);
    lemma_skips(s, word);
    lemma_same_skips(s, t, word);
    let end = text::skip_word(s, word);
    lemma_skips(s, end);
    lemma_same_skips(s, t, end);
    let target = text::skip_white(s, end);
    lemma_skips(s, target);
    lemma_same_skips(s, t, target);
    assert forall|k: int| word <= k < end implies text::lower_char(#[trigger] s[k])
        == text::lower_char(t[k]) by {
        assert(s[k] == a[k] && t[k] == b[k]);
    }
    assert(text::lower(first_word(s)) =~= text::lower(first_word(t)));
    assert forall|k: int| target <= k < s.len() implies #[trigger] s[k] == t[k] by {
        assert(s[k] == a[k] && t[k] == b[k]);
    }
    assert(second_word(s) =~= second_word(t));
}

/// Whether a text is one word, as far as a policy file can tell: not empty, without white space and
/// without a comment.
pub open spec fn is_word(s: Seq<char>) -> bool {
    s.len() > 0 && forall|i: int|
        0 <= i < s.len() ==> !text::is_white(#[trigger] s[i]) && s[i] != '#'
}

proof fn lemma_decimal_chars(x: nat)
    ensures
        text::decimal(x).len() > 0,
        forall|i: int|
            0 <= i < text::decimal(x).len() ==> text::is_digit(#[trigger] text::decimal(x)[i]),
{
    text::lemma_decimal_value_of_decimal(x);
}

proof fn lemma_ipv4_chars(ip: Ipv4Addr)
    ensures
        addr::ipv4_text(ip).len() > 0,
        text::is_digit(addr::ipv4_text(ip)[0]),
        forall|i: int|
            0 <= i < addr::ipv4_text(ip).len() ==> text::is_digit(
                #[trigger] addr::ipv4_text(ip)[i],
            ) || addr::ipv4_text(ip)[i] == '.',
{
    lemma_decimal_chars(ip.a as nat);
    lemma_decimal_chars(ip.b as nat);
    lemma_decimal_chars(ip.c as nat);
    lemma_decimal_chars(ip.d as nat);
    let a = text::decimal(ip.a as nat);
    let b = text::decimal(ip.b as nat);
    let c = text::decimal(ip.c as nat);
    let d = text::decimal(ip.d as nat);
    let s = addr::ipv4_text(ip);
    assert(s[0] == a[0]);
    assert forall|i: int| 0 <= i < s.len() implies text::is_digit(#[trigger] s[i]) || s[i] == '.' by {
        let j = i - a.len() - 1;
        let k = j - b.len() - 1;
        let l = k - c.len() - 1;
        if i < a.len() {
            assert(s[i] == a[i]);
        } else if 0 <= j < b.len() {
            assert(s[i] == b[j]);
        } else if 0 <= k < c.len() {
            assert(s[i] == c[k]);
        } else if 0 <= l {
            assert(s[i] == d[l]);
        }
    }
}

/// The address part of a rule without a prefix names one host: for every address, its text is read as
/// that address with all 32 bits, and so as a block that holds this address and no other.
pub proof fn law_plain_addresses_name_one_host(ip: Ipv4Addr)
    ensures
        exit_policy::parse_net(addr::ipv4_text(ip)) matches Ok(Some((net, prefix))) && net == ip
            && prefix == 32 && forall|other: Ipv4Addr| #[trigger]
            addr::in_cidr(other, net, prefix) <==> other == ip,
{
    let s = addr::ipv4_text(ip);
    lemma_ipv4_chars(ip);
    reveal_strlit("*");
    assert(s[0] != "*"@[0]);
    text::lemma_find_from(s, '/', 0);
    let slash = text::find_from(s, '/', 0);
    if slash < s.len() {
        assert(text::is_digit(s[slash]) || s[slash] == '.');
    }
    addr::law_ipv4_text_round_trip(ip);
    assert forall|other: Ipv4Addr| #[trigger] addr::in_cidr(other, ip, 32) <==> other == ip by {
        exit_policy::law_cidr_ends(other, ip);
    }
}

/// An address with a prefix names that block: for every address and every prefix of 0 to 255, its text
/// is read as the two.
pub proof fn law_blocks_are_read_back(ip: Ipv4Addr, prefix: u8)
    ensures
        exit_policy::parse_net(addr::ipv4_text(ip) + seq!['/'] + text::decimal(prefix as nat))
            == Ok::<_, (exit_policy::PolicyErrorKind, Seq<char>)>(Some((ip, prefix))),
{
    let a = addr::ipv4_text(ip);
    let p = text::decimal(prefix as nat);
    let s = a + seq!['/'] + p;
    lemma_ipv4_chars(ip);
    lemma_decimal_chars(prefix as nat);
    reveal_strlit("*");
    assert(s[0] == a[0]);
    assert(s[0] != "*"@[0]);
    text::lemma_find_from(s, '/', 0);
    let slash = text::find_from(s, '/', 0);
    let n = a.len() as int;
    assert(s[n] == '/');
    if slash < n {
        assert(s[slash] == a[slash]);
    }
    assert(slash == n);
    assert(s.take(slash) =~= a);
    assert(s.skip(slash + 1) =~= p);
    addr::law_ipv4_text_round_trip(ip);
    text::law_decimal_round_trip(prefix as nat, 255);
}

/// A port of a rule is read as the number that it spells, for every port.
pub proof fn law_ports_are_read_back(port: u16)
    ensures
        exit_policy::parse_port(text::decimal(port as nat)) == Ok::<
            _,
            (exit_policy::PolicyErrorKind, Seq<char>),
        >(Some(port)),
{
    lemma_decimal_chars(port as nat);
    reveal_strlit("*");
    let s = text::decimal(port as nat);
    assert(text::is_digit(s[0]));
    assert(s[0] != "*"@[0]);
    text::law_decimal_round_trip(port as nat, 65535);
}

/// The text of the address part of a rule.
pub open spec fn net_text(net: Option<(Ipv4Addr, u8)>) -> Seq<char> {
    match net {
        None => seq!['*'],
        Some((ip, prefix)) => addr::ipv4_text(ip) + seq!['/'] + text::decimal(prefix as nat),
    }
}

/// The text of the port part of a rule.
pub open spec fn port_text(port: Option<u16>) -> Seq<char> {
    match port {
        None => seq!['*'],
        Some(p) => text::decimal(p as nat),
    }
}

/// The word for an action.
pub open spec fn action_text(action: PolicyAction) -> Seq<char> {
    match action {
        PolicyAction::Accept => seq!['a', 'c', 'c', 'e', 'p', 't'],
        PolicyAction::Reject => seq!['r', 'e', 'j', 'e', 'c', 't'],
    }
}

/// A rule as it is written.
pub open spec fn rule_text(rule: ExitRule) -> Seq<char> {
    action_text(rule.action) + seq![' '] + (net_text(rule.net) + seq![':'] + port_text(rule.port))
}

/// Rules as they are written, one to a line.
pub open spec fn policy_text(rules: Seq<ExitRule>) -> Seq<char>
    decreases rules.len(),
{
    if rules.len() == 0 {
        Seq::empty()
    } else {
        rule_text(rules[0]) + seq!['\n'] + policy_text(rules.drop_first())
    }
}

proof fn lemma_net_text(net: Option<(Ipv4Addr, u8)>)
    ensures
        exit_policy::parse_net(net_text(net)) == Ok::<_, (exit_policy::PolicyErrorKind, Seq<char>)>(
            net,
        ),
        is_word(net_text(net)),
{
    match net {
        None => {
            reveal_strlit("*");
            assert(net_text(net) =~= "*"@);
        },
        Some((ip, prefix)) => {
            law_blocks_are_read_back(ip, prefix);
            lemma_ipv4_chars(ip);
            lemma_decimal_chars(prefix as nat);
            let a = addr::ipv4_text(ip);
            let p = text::decimal(prefix as nat);
            let s = net_text(net);
            assert forall|i: int| 0 <= i < s.len() implies !text::is_white(#[trigger] s[i]) && s[i]
                != '#' by {
                if i < a.len() {
                    assert(s[i] == a[i]);
                } else if i > a.len() {
                    assert(s[i] == p[i - a.len() - 1]);
                }
            }
        },
    }
}

proof fn lemma_port_text(port: Option<u16>)
    ensures
        exit_policy::parse_port(port_text(port)) == Ok::<
            _,
            (exit_policy::PolicyErrorKind, Seq<char>),
        >(port),
        is_word(port_text(port)),
        forall|i: int| 0 <= i < port_text(port).len() ==> #[trigger] port_text(port)[i] != ':',
{
    match port {
        None => {
            reveal_strlit("*");
            assert(port_text(port) =~= "*"@);
        },
        Some(p) => {
            law_ports_are_read_back(p);
            lemma_decimal_chars(p as nat);
            let s = text::decimal(p as nat);
            assert forall|i: int| 0 <= i < s.len() implies !text::is_white(#[trigger] s[i]) && s[i]
                != '#' && s[i] != ':' by {
                assert(text::is_digit(s[i]));
            }
        },
    }
}

/// A target is read as what stands in front of its last colon and what stands behind it.
proof fn lemma_target(
    action: PolicyAction,
    a: Seq<char>,
    b: Seq<char>,
    net: Option<(Ipv4Addr, u8)>,
    port: Option<u16>,
)
    requires
        exit_policy::parse_net(a) == Ok::<_, (exit_policy::PolicyErrorKind, Seq<char>)>(net),
        exit_policy::parse_port(b) == Ok::<_, (exit_policy::PolicyErrorKind, Seq<char>)>(port),
        forall|i: int| 0 <= i < b.len() ==> #[trigger] b[i] != ':',
    ensures
        exit_policy::parse_target(action, a + seq![':'] + b) == Line::Rule(
            ExitRule { action, net, port },
        ),
{
    let s = a + seq![':'] + b;
    let n = a.len() as int;
    assert(s[n] == ':');
    assert forall|j: int| n < j < s.len() implies s[j] != ':' by {
        assert(s[j] == b[j - n - 1]);
    }
    text::lemma_find_back(s, ':', n, s.len() as int);
    assert(s.take(n) =~= a);
    assert(s.skip(n + 1) =~= b);
}

proof fn lemma_skip_word(s: Seq<char>, i: int, end: int)
    requires
        0 <= i <= end <= s.len(),
        forall|k: int| i <= k < end ==> !text::is_white(#[trigger] s[k]),
        end == s.len() || text::is_white(s[end]),
    ensures
        text::skip_word(s, i) == end,
    decreases end - i,
{
    if i < end {
        assert(!text::is_white(s[i]));
        lemma_skip_word(s, i + 1, end);
    }
}

/// A line of two words is read as those two words.
proof fn lemma_two_words(w: Seq<char>, t: Seq<char>)
    requires
        is_word(w),
        is_word(t),
    ensures
        code_of(w + seq![' '] + t) == w + seq![' '] + t,
        first_word(w + seq![' '] + t) == w,
        second_word(w + seq![' '] + t) == t,
{
    let s = w + seq![' '] + t;
    let n = w.len() as int;
    text::lemma_find_from(s, '#', 0);
    let hash = text::find_from(s, '#', 0);
    if hash < s.len() {
        if hash < n {
            assert(s[hash] == w[hash]);
        } else if hash > n {
            assert(s[hash] == t[hash - n - 1]);
        }
    }
    assert(code_of(s) =~= s);
    assert forall|k: int| 0 <= k < n implies !text::is_white(#[trigger] s[k]) by {
        assert(s[k] == w[k]);
    }
    assert(s[n] == ' ');
    assert forall|k: int| n + 1 <= k < s.len() implies !text::is_white(#[trigger] s[k]) by {
        assert(s[k] == t[k - n - 1]);
    }
    assert(!text::is_white(s[0]));
    lemma_skip_word(s, 0, n);
    assert(!text::is_white(s[n + 1]));
    assert(text::skip_white(s, n + 1) == n + 1);
    assert(text::skip_white(s, n) == n + 1);
    lemma_skip_word(s, n + 1, s.len() as int);
    assert(first_word(s) =~= w);
    assert(second_word(s) =~= t);
}

proof fn lemma_action_text(action: PolicyAction)
    ensures
        exit_policy::parse_action(action_text(action)) == Some(action),
        is_word(action_text(action)),
{
    reveal_strlit("accept");
    reveal_strlit("reject");
    let a = action_text(PolicyAction::Accept);
    let r = action_text(PolicyAction::Reject);
    assert(text::lower(a) =~= "accept"@);
    assert(text::lower(r) =~= "reject"@);
    assert(text::lower(r)[0] != "accept"@[0]);
    assert(is_word(a));
    assert(is_word(r));
}

proof fn lemma_written_line(
    action: PolicyAction,
    a: Seq<char>,
    b: Seq<char>,
    net: Option<(Ipv4Addr, u8)>,
    port: Option<u16>,
)
    requires
        is_word(a),
        is_word(b),
        exit_policy::parse_net(a) == Ok::<_, (exit_policy::PolicyErrorKind, Seq<char>)>(net),
        exit_policy::parse_port(b) == Ok::<_, (exit_policy::PolicyErrorKind, Seq<char>)>(port),
        forall|i: int| 0 <= i < b.len() ==> #[trigger] b[i] != ':',
    ensures
        exit_policy::parse_line(action_text(action) + seq![' '] + (a + seq![':'] + b))
            == Line::Rule(ExitRule { action, net, port }),
        forall|i: int|
            0 <= i < (action_text(action) + seq![' '] + (a + seq![':'] + b)).len() ==> #[trigger] (
            action_text(action) + seq![' '] + (a + seq![':'] + b))[i] != '\n',
{
    let w = action_text(action);
    let t = a + seq![':'] + b;
    let s = w + seq![' '] + t;
    let n = a.len() as int;
    lemma_action_text(action);
    lemma_target(action, a, b, net, port);
    assert forall|i: int| 0 <= i < t.len() implies !text::is_white(#[trigger] t[i]) && t[i] != '#' by {
        if i < n {
            assert(t[i] == a[i]);
        } else if i > n {
            assert(t[i] == b[i - n - 1]);
        }
    }
    lemma_two_words(w, t);
    lemma_code_words(s);
    assert forall|i: int| 0 <= i < s.len() implies #[trigger] s[i] != '\n' by {
        if i < w.len() {
            assert(!text::is_white(w[i]));
            assert(s[i] == w[i]);
        } else if i > w.len() {
            assert(!text::is_white(t[i - w.len() - 1]));
            assert(s[i] == t[i - w.len() - 1]);
        }
    }
}

/// Every rule is read back from the line in which it is written: action, block and port, wildcards
/// included.
pub proof fn law_rules_are_read_back(rule: ExitRule)
    ensures
        exit_policy::parse_line(rule_text(rule)) == Line::Rule(rule),
{
    lemma_rule_text(rule);
}

proof fn lemma_rule_text(rule: ExitRule)
    ensures
        exit_policy::parse_line(rule_text(rule)) == Line::Rule(rule),
        forall|i: int| 0 <= i < rule_text(rule).len() ==> #[trigger] rule_text(rule)[i] != '\n',
{
    lemma_net_text(rule.net);
    lemma_port_text(rule.port);
    lemma_written_line(
        rule.action,
        net_text(rule.net),
        port_text(rule.port),
        rule.net,
        rule.port,
    );
}

proof fn lemma_find_shift(pre: Seq<char>, s: Seq<char>, c: char, i: int)
    requires
        0 <= i <= s.len(),
    ensures
        text::find_from(pre + s, c, pre.len() + i) == pre.len() + text::find_from(s, c, i),
    decreases s.len() - i,
{
    if i < s.len() {
        assert((pre + s)[pre.len() + i] == s[i]);
        lemma_find_shift(pre, s, c, i + 1);
    }
}

proof fn lemma_lines_shift(pre: Seq<char>, s: Seq<char>, i: nat)
    requires
        i <= s.len() + 1,
    ensures
        lines_from(pre + s, pre.len() + i) == lines_from(s, i),
    decreases s.len() + 1 - i,
{
    if i < s.len() {
        lemma_find_shift(pre, s, '\n', i as int);
        text::lemma_find_from(s, '\n', i as int);
        let end = text::find_from(s, '\n', i as int);
        lemma_lines_shift(pre, s, (end + 1) as nat);
        assert((pre + s).subrange((pre.len() + i) as int, pre.len() + end) =~= s.subrange(i as int, end));
    }
}

/// The lines of a text that begins with a whole line.
proof fn lemma_first_line(line: Seq<char>, rest: Seq<char>)
    requires
        forall|i: int| 0 <= i < line.len() ==> #[trigger] line[i] != '\n',
    ensures
        lines(line + seq!['\n'] + rest) == seq![line] + lines(rest),
{
    let s = line + seq!['\n'] + rest;
    let n = line.len() as int;
    text::lemma_find_from(s, '\n', 0);
    let end = text::find_from(s, '\n', 0);
    assert(s[n] == '\n');
    if end < n {
        assert(s[end] == line[end]);
    }
    assert(end == n);
    assert(s.subrange(0, n) =~= line);
    let pre = line + seq!['\n'];
    lemma_lines_shift(pre, rest, 0);
    assert(pre + rest =~= s);
}

proof fn lemma_written_policy(rules: Seq<ExitRule>, count: nat, before: Seq<ExitRule>)
    ensures
        parse_list(lines(policy_text(rules)), count, before) == Ok::<_, PolicyErrorView>(
            before + rules,
        ),
    decreases rules.len(),
{
    if rules.len() == 0 {
        assert(before + rules =~= before);
    } else {
        let rest = rules.drop_first();
        lemma_rule_text(rules[0]);
        lemma_first_line(rule_text(rules[0]), policy_text(rest));
        let list = lines(policy_text(rules));
        assert(list[0] == rule_text(rules[0]));
        assert(list.drop_first() =~= lines(policy_text(rest)));
        lemma_written_policy(rest, count + 1, before.push(rules[0]));
        assert(before.push(rules[0]) + rest =~= before + rules);
    }
}

/// Every policy is read back from the text in which it is written: the same rules, all of them, in the
/// same order.
pub proof fn law_policies_are_read_back(
    rules: Seq<ExitRule>,
    text: &str,
    r: Result<ExitPolicy, PolicyError>,
)
    requires
        text@ == policy_text(rules),
        call_ensures(ExitPolicy::parse, (text,), r),
    ensures
        r matches Ok(policy) && policy@ == rules,
{
    lemma_lines(text@, 0, 0, Seq::empty());
    lemma_written_policy(rules, 0, Seq::empty());
    assert(Seq::<ExitRule>::empty() + rules =~= rules);
}

/// A policy that accepts one host at one port is read, and lets connections to that host and port
/// through, and no others.
pub proof fn law_one_host_rules_accept_one_host(
    ip: Ipv4Addr,
    port: u16,
    text: &str,
    r: Result<ExitPolicy, PolicyError>,
)
    requires
        text@ == action_text(PolicyAction::Accept) + seq![' '] + (addr::ipv4_text(ip) + seq![':']
            + text::decimal(port as nat)),
        call_ensures(ExitPolicy::parse, (text,), r),
    ensures
        match r {
            Ok(policy) => forall|other: Ipv4Addr, other_port: u16, allowed: bool|
                #[trigger] call_ensures(
                    ExitPolicy::is_allowed,
                    (&policy, other, other_port),
                    allowed,
                ) ==> allowed == (other == ip && other_port == port),
            Err(_) => false,
        },
{
    lemma_one_host_line(PolicyAction::Accept, ip, port, text@);
    let rule = ExitRule {
        action: PolicyAction::Accept,
        net: Some((ip, 32u8)),
        port: Some(port),
    };
    match r {
        Ok(policy) => {
            assert(policy@ =~= seq![rule]);
            assert forall|other: Ipv4Addr, other_port: u16, allowed: bool|
                #[trigger] call_ensures(
                    ExitPolicy::is_allowed,
                    (&policy, other, other_port),
                    allowed,
                ) implies allowed == (other == ip && other_port == port) by {
                exit_policy::law_cidr_ends(other, ip);
                if exit_policy::rule_matches(rule, other, other_port) {
                    exit_policy::law_first_match_wins(policy@, 0, other, other_port);
                } else {
                    exit_policy::law_final_reject(policy@, other, other_port);
                }
            }
        },
        Err(_) => {},
    }
}

proof fn lemma_one_host_line(action: PolicyAction, ip: Ipv4Addr, port: u16, s: Seq<char>)
    requires
        s == action_text(action) + seq![' '] + (addr::ipv4_text(ip) + seq![':'] + text::decimal(
            port as nat,
        )),
    ensures
        exit_policy::parse_policy(s) == Ok::<_, PolicyErrorView>(
            seq![ExitRule { action, net: Some((ip, 32u8)), port: Some(port) }],
        ),
{
    let a = addr::ipv4_text(ip);
    let b = text::decimal(port as nat);
    law_plain_addresses_name_one_host(ip);
    lemma_port_text(Some(port));
    lemma_ipv4_chars(ip);
    assert forall|i: int| 0 <= i < a.len() implies !text::is_white(#[trigger] a[i]) && a[i]
        != '#' by {
        assert(text::is_digit(a[i]) || a[i] == '.');
    }
    let rule = ExitRule { action, net: Some((ip, 32u8)), port: Some(port) };
    lemma_written_line(action, a, b, rule.net, rule.port);
    lemma_lines(s, 0, 0, Seq::empty());
    text::lemma_find_from(s, '\n', 0);
    let end = text::find_from(s, '\n', 0);
    assert(end == s.len());
    assert(s.len() > 0);
    assert(s.subrange(0, end) =~= s);
    assert(lines_from(s, (end + 1) as nat) =~= Seq::empty());
    let list = lines(s);
    assert(list =~= seq![s]);
    assert(list.drop_first() =~= Seq::empty());
    assert(parse_list(list.drop_first(), 1, Seq::empty().push(rule)) == Ok::<_, PolicyErrorView>(
        Seq::empty().push(rule),
    ));
    assert(Seq::<ExitRule>::empty().push(rule) =~= seq![rule]);
}

/// A rule for one port speaks of no other port, and one for all ports of every port alike. A rule for
/// all addresses speaks of every address alike.
pub proof fn law_rules_speak_of_what_they_name(
    rule: ExitRule,
    ip: Ipv4Addr,
    other: Ipv4Addr,
    port: u16,
    other_port: u16,
)
    ensures
        rule.port matches Some(p) ==> p != port ==> !exit_policy::rule_matches(rule, ip, port),
        rule.port is None ==> exit_policy::rule_matches(rule, ip, port)
            == exit_policy::rule_matches(rule, ip, other_port),
        rule.net is None ==> exit_policy::rule_matches(rule, ip, port) == exit_policy::rule_matches(
            rule,
            other,
            port,
        ),
        rule.net matches Some((net, _)) ==> (rule.port is None || rule.port == Some(port))
            ==> exit_policy::rule_matches(rule, net, port),
        rule.net is None && rule.port is None ==> exit_policy::rule_matches(rule, ip, port),
        rule.net matches Some((net, prefix)) ==> exit_policy::rule_matches(rule, ip, port)
            ==> addr::in_cidr(ip, net, prefix),
{
}

/// A policy decides by its first rule that matches: in front of any other rules, a rule that matches
/// settles the matter, and one that does not changes nothing. Without rules nothing is allowed.
pub proof fn law_policies_decide_rule_by_rule(
    policy: &ExitPolicy,
    ip: Ipv4Addr,
    port: u16,
    allowed: bool,
)
    requires
        call_ensures(ExitPolicy::is_allowed, (policy, ip, port), allowed),
    ensures
        allowed ==> exists|i: int|
            0 <= i < policy@.len() && (#[trigger] policy@[i]).action == PolicyAction::Accept
                && exit_policy::rule_matches(policy@[i], ip, port) && forall|j: int|
                0 <= j < i ==> !exit_policy::rule_matches(#[trigger] policy@[j], ip, port),
        !allowed ==> forall|i: int|
            0 <= i < policy@.len() && (#[trigger] policy@[i]).action == PolicyAction::Accept
                && exit_policy::rule_matches(policy@[i], ip, port) ==> exists|j: int|
                0 <= j < i && (#[trigger] policy@[j]).action == PolicyAction::Reject
                    && exit_policy::rule_matches(policy@[j], ip, port),
{
    lemma_first_match(policy@, ip, port, 0);
}

/// Where the first match stands, if there is one.
proof fn lemma_first_match(rules: Seq<ExitRule>, ip: Ipv4Addr, port: u16, from: int)
    requires
        0 <= from <= rules.len(),
        forall|j: int| 0 <= j < from ==> !exit_policy::rule_matches(#[trigger] rules[j], ip, port),
    ensures
        exit_policy::verdict(rules, ip, port) == PolicyAction::Accept ==> exists|i: int|
            0 <= i < rules.len() && (#[trigger] rules[i]).action == PolicyAction::Accept
                && exit_policy::rule_matches(rules[i], ip, port) && forall|j: int|
                0 <= j < i ==> !exit_policy::rule_matches(#[trigger] rules[j], ip, port),
        exit_policy::verdict(rules, ip, port) != PolicyAction::Accept ==> forall|i: int|
            0 <= i < rules.len() && (#[trigger] rules[i]).action == PolicyAction::Accept
                && exit_policy::rule_matches(rules[i], ip, port) ==> exists|j: int|
                0 <= j < i && (#[trigger] rules[j]).action == PolicyAction::Reject
                    && exit_policy::rule_matches(rules[j], ip, port),
    decreases rules.len() - from,
{
    if from == rules.len() {
        exit_policy::law_final_reject(rules, ip, port);
    } else if exit_policy::rule_matches(rules[from], ip, port) {
        exit_policy::law_first_match_wins(rules, from, ip, port);
        if rules[from].action != PolicyAction::Accept {
            assert forall|i: int|
                0 <= i < rules.len() && (#[trigger] rules[i]).action == PolicyAction::Accept
                    && exit_policy::rule_matches(rules[i], ip, port) implies exists|j: int|
                0 <= j < i && (#[trigger] rules[j]).action == PolicyAction::Reject
                    && exit_policy::rule_matches(rules[j], ip, port) by {
                assert(rules[from].action == PolicyAction::Reject);
                assert(i != from);
                if i < from {
                    assert(!exit_policy::rule_matches(rules[i], ip, port));
                }
            }
        }
    } else {
        lemma_first_match(rules, ip, port, from + 1);
    }
}

/// Two words are actions, in any mix of capitals and small letters, and no other word is one.
pub proof fn law_two_words_are_actions(word: Seq<char>)
    ensures
        exit_policy::parse_action(word) == Some(PolicyAction::Accept) <==> text::lower(word)
            == action_text(PolicyAction::Accept),
        exit_policy::parse_action(word) == Some(PolicyAction::Reject) <==> text::lower(word)
            == action_text(PolicyAction::Reject),
{
    reveal_strlit("accept");
    reveal_strlit("reject");
    assert(action_text(PolicyAction::Accept) =~= "accept"@);
    assert(action_text(PolicyAction::Reject) =~= "reject"@);
    assert("accept"@[0] != "reject"@[0]);
}

proof fn lemma_bad_line(
    rules: Seq<ExitRule>,
    bad: Seq<char>,
    rest: Seq<char>,
    count: nat,
    before: Seq<ExitRule>,
    kind: exit_policy::PolicyErrorKind,
    words: Seq<char>,
)
    requires
        forall|i: int| 0 <= i < bad.len() ==> #[trigger] bad[i] != '\n',
        exit_policy::parse_line(bad) == Line::Bad(kind, words),
    ensures
        parse_list(lines(policy_text(rules) + (bad + seq!['\n'] + rest)), count, before) == Err::<
            Seq<ExitRule>,
            _,
        >(PolicyErrorView { line: count + rules.len() + 1, kind, text: words }),
    decreases rules.len(),
{
    let tail = bad + seq!['\n'] + rest;
    if rules.len() == 0 {
        assert(policy_text(rules) + tail =~= tail);
        lemma_first_line(bad, rest);
        assert(lines(tail)[0] == bad);
    } else {
        let more = rules.drop_first();
        lemma_rule_text(rules[0]);
        let after = policy_text(more) + tail;
        assert(policy_text(rules) + tail =~= rule_text(rules[0]) + seq!['\n'] + after);
        lemma_first_line(rule_text(rules[0]), after);
        let list = lines(policy_text(rules) + tail);
        assert(list[0] == rule_text(rules[0]));
        assert(list.drop_first() =~= lines(after));
        lemma_bad_line(more, bad, rest, count + 1, before.push(rules[0]), kind, words);
    }
}

/// The first line that cannot be read spoils the whole file, whatever follows it, and is reported by
/// its number: behind `n` good lines, by `n + 1`.
pub proof fn law_the_first_bad_line_is_reported(
    rules: Seq<ExitRule>,
    bad: Seq<char>,
    rest: Seq<char>,
    kind: exit_policy::PolicyErrorKind,
    words: Seq<char>,
    text: &str,
    r: Result<ExitPolicy, PolicyError>,
)
    requires
        forall|i: int| 0 <= i < bad.len() ==> #[trigger] bad[i] != '\n',
        exit_policy::parse_line(bad) == Line::Bad(kind, words),
        text@ == policy_text(rules) + (bad + seq!['\n'] + rest),
        call_ensures(ExitPolicy::parse, (text,), r),
    ensures
        r matches Err(e) && e.line == rules.len() + 1 && e.kind == kind && e.text@ == words,
{
    lemma_lines(text@, 0, 0, Seq::empty());
    lemma_bad_line(rules, bad, rest, 0, Seq::empty(), kind, words);
}

/// What is wrong with a rule is told in one order: a prefix that is no number up to 255 before the
/// address in front of it, and either before the port.
pub proof fn law_the_first_mistake_is_told(
    action: PolicyAction,
    net: Seq<char>,
    prefix: Seq<char>,
    port: Seq<char>,
)
    requires
        forall|i: int| 0 <= i < net.len() ==> #[trigger] net[i] != '/',
        forall|i: int| 0 <= i < port.len() ==> #[trigger] port[i] != ':',
    ensures
        text::parse_number(prefix, 255) is None ==> exit_policy::parse_target(
            action,
            (net + seq!['/'] + prefix) + seq![':'] + port,
        ) == Line::Bad(exit_policy::PolicyErrorKind::BadPrefix, prefix),
        text::parse_number(prefix, 255) is Some && addr::parse_ipv4(net) is None
            ==> exit_policy::parse_target(action, (net + seq!['/'] + prefix) + seq![':'] + port)
            == Line::Bad(exit_policy::PolicyErrorKind::BadAddress, net),
        net.len() > 0 && net[0] != '*' && addr::parse_ipv4(net) is None
            ==> exit_policy::parse_target(action, net + seq![':'] + port) == Line::Bad(
            exit_policy::PolicyErrorKind::BadAddress,
            net,
        ),
        addr::parse_ipv4(net) is Some && text::parse_number(port, 65535) is None && (port.len()
            == 0 || port[0] != '*') ==> exit_policy::parse_target(action, net + seq![':'] + port)
            == Line::Bad(exit_policy::PolicyErrorKind::BadPort, port),
{
    reveal_strlit("*");
    let a = net + seq!['/'] + prefix;
    lemma_split_target(a, port);
    lemma_split_target(net, port);
    text::lemma_find_from(a, '/', 0);
    let slash = text::find_from(a, '/', 0);
    let n = net.len() as int;
    assert(a[n] == '/');
    if slash < n {
        assert(a[slash] == net[slash]);
    }
    assert(slash == n);
    assert(a.take(n) =~= net);
    assert(a.skip(n + 1) =~= prefix);
    if a =~= "*"@ {
        assert(a[n] == "*"@[n]);
        assert(n == 0);
    }
    assert(a != "*"@);
    text::lemma_find_from(net, '/', 0);
    let none = text::find_from(net, '/', 0);
    if none < net.len() {
        assert(net[none] != '/');
    }
    if net.len() > 0 && net[0] != '*' {
        assert(net[0] != "*"@[0]);
    }
    if port.len() > 0 && port[0] != '*' {
        assert(port[0] != "*"@[0]);
    }
}

/// A target is cut at its last colon.
proof fn lemma_split_target(a: Seq<char>, b: Seq<char>)
    requires
        forall|i: int| 0 <= i < b.len() ==> #[trigger] b[i] != ':',
    ensures
        ({
            let s = a + seq![':'] + b;
            let colon = text::find_back(s, ':', s.len() as int);
            colon == a.len() && s.take(colon) == a && s.skip(colon + 1) == b
        }),
{
    let s = a + seq![':'] + b;
    let n = a.len() as int;
    assert(s[n] == ':');
    assert forall|j: int| n < j < s.len() implies s[j] != ':' by {
        assert(s[j] == b[j - n - 1]);
    }
    text::lemma_find_back(s, ':', n, s.len() as int);
    assert(s.take(n) =~= a);
    assert(s.skip(n + 1) =~= b);
}

/// Words are told apart by the characters that Unicode calls white space, and by no others.
pub proof fn law_white_space_is_that_of_unicode(c: char)
    ensures
        text::is_white(c) <==> seq![
            '\u{9}', '\u{a}', '\u{b}', '\u{c}', '\u{d}', '\u{20}', '\u{85}', '\u{a0}',
            '\u{1680}', '\u{2000}', '\u{2001}', '\u{2002}', '\u{2003}', '\u{2004}', '\u{2005}',
            '\u{2006}', '\u{2007}', '\u{2008}', '\u{2009}', '\u{200a}', '\u{2028}', '\u{2029}',
            '\u{202f}', '\u{205f}', '\u{3000}',
        ].contains(c),
{
    let list = seq![
        '\u{9}', '\u{a}', '\u{b}', '\u{c}', '\u{d}', '\u{20}', '\u{85}', '\u{a0}',
        '\u{1680}', '\u{2000}', '\u{2001}', '\u{2002}', '\u{2003}', '\u{2004}', '\u{2005}',
        '\u{2006}', '\u{2007}', '\u{2008}', '\u{2009}', '\u{200a}', '\u{2028}', '\u{2029}',
        '\u{202f}', '\u{205f}', '\u{3000}',
    ];
    let u = c as u32;
    if text::is_white(c) {
        let i: int = if u <= 0xd {
            u - 9
        } else if u == 0x20 {
            5
        } else if u == 0x85 {
            6
        } else if u == 0xa0 {
            7
        } else if u == 0x1680 {
            8
        } else if u <= 0x200a {
            u - 0x2000 + 9
        } else if u == 0x2028 {
            20
        } else if u == 0x2029 {
            21
        } else if u == 0x202f {
            22
        } else if u == 0x205f {
            23
        } else {
            24
        };
        assert(list[i] == c);
    }
    if list.contains(c) {
        let i = choose|i: int| 0 <= i < list.len() && list[i] == c;
        assert(text::is_white(list[i]));
    }
}

/// Small letters are made of the capitals A to Z, by their place in the alphabet, and of nothing else.
pub proof fn law_small_letters_are_made_of_capitals(c: char)
    ensures
        'A' <= c && c <= 'Z' ==> text::lower_char(c) as u32 - 'a' as u32 == c as u32 - 'A' as u32,
        !('A' <= c && c <= 'Z') ==> text::lower_char(c) == c,
        text::lower_char(text::lower_char(c)) == text::lower_char(c),
{
}

/// How numbers are written in a policy: in digits, with zeros in front or not, with a plus in front or
/// not, and with nothing else among them. A number over the limit is none.
pub proof fn law_numbers_are_written_in_digits(s: Seq<char>, max: nat, i: int)
    ensures
        text::parse_number(Seq::<char>::empty(), max) is None,
        text::parse_number(seq!['+'], max) is None,
        s.len() > 0 && s[0] != '+' ==> text::parse_number(seq!['+'] + s, max)
            == text::parse_number(s, max),
        s.len() > 0 && s[0] == '+' ==> text::parse_number(seq!['+'] + s, max) is None,
        s.len() > 0 && s[0] != '+' ==> text::parse_number(seq!['0'] + s, max)
            == text::parse_number(s, max),
        0 <= i < s.len() && !('0' <= s[i] && s[i] <= '9') && !(i == 0 && s[i] == '+')
            ==> text::parse_number(s, max) is None,
        s.len() > 0 && (forall|j: int|
            0 <= j < s.len() ==> '0' <= #[trigger] s[j] && s[j] <= '9') ==> match text::parse_number(
            s,
            max,
        ) {
            Some(x) => x == number_in_digits(s) && x <= max,
            None => number_in_digits(s) > max,
        },
{
    let plus = seq!['+'] + s;
    let zero = seq!['0'] + s;
    assert(plus.skip(1) =~= s);
    assert(seq!['+'].skip(1) =~= Seq::<char>::empty());
    lemma_zero_in_front(s);
    lemma_number_in_digits(s);
    assert(zero[0] == '0');
    if s.len() > 0 && s[0] != '+' {
        assert(text::unsigned(s) == s);
        assert(text::unsigned(zero) == zero);
        assert(text::unsigned(plus) == s);
        if text::all_digits(s) {
            assert forall|j: int| 0 <= j < zero.len() implies text::is_digit(
                #[trigger] zero[j],
            ) by {
                if j > 0 {
                    assert(zero[j] == s[j - 1]);
                }
            }
        }
        if text::all_digits(zero) {
            assert forall|j: int| 0 <= j < s.len() implies text::is_digit(#[trigger] s[j]) by {
                assert(s[j] == zero[j + 1]);
            }
        }
    }
    if s.len() > 0 && s[0] == '+' {
        assert(text::unsigned(plus) == s);
        assert(!text::is_digit(s[0]));
    }
    if 0 <= i < s.len() && !('0' <= s[i] && s[i] <= '9') && !(i == 0 && s[i] == '+') {
        let t = text::unsigned(s);
        if t != s {
            assert(t =~= s.skip(1));
            assert(i > 0);
            assert(t[i - 1] == s[i]);
            assert(!text::is_digit(t[i - 1]));
        } else {
            assert(!text::is_digit(t[i]));
        }
    }
}

/// The number that digits spell, the highest first.
pub open spec fn number_in_digits(s: Seq<char>) -> nat
    decreases s.len(),
{
    if s.len() == 0 {
        0
    } else {
        (10 * number_in_digits(s.drop_last()) + (s.last() as u32 - '0' as u32)) as nat
    }
}

proof fn lemma_number_in_digits(s: Seq<char>)
    ensures
        (forall|j: int| 0 <= j < s.len() ==> '0' <= #[trigger] s[j] && s[j] <= '9')
            ==> text::decimal_value(s) == number_in_digits(s),
    decreases s.len(),
{
    if s.len() > 0 {
        lemma_number_in_digits(s.drop_last());
    }
}

proof fn lemma_zero_in_front(s: Seq<char>)
    ensures
        text::decimal_value(seq!['0'] + s) == text::decimal_value(s),
    decreases s.len(),
{
    let t = seq!['0'] + s;
    if s.len() == 0 {
        assert(t.drop_last() =~= Seq::<char>::empty());
        assert(text::decimal_value(t.drop_last()) == 0);
    } else {
        lemma_zero_in_front(s.drop_last());
        assert(t.drop_last() =~= seq!['0'] + s.drop_last());
        assert(t.last() == s.last());
    }
}

} // verus!

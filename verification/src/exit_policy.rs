//! The exit policy: whether this relay dials out on behalf of a `Begin` cell.
//!
//! Rules are evaluated in order and the first match wins. If nothing matches, the connection is
//! rejected. With no rules at all every destination is rejected, and the node only relays.
//!
//! A policy file holds one rule per line, and `#` starts a comment:
//!
//! ```text
//! reject 127.0.0.0/8:*
//! reject *:25
//! accept *:*
//! ```

use crate::addr;
use crate::addr::Ipv4Addr;
use crate::text;
use vstd::prelude::*;

verus! {

#[derive(Debug, Clone, Copy, PartialEq, Eq, Structural)]
pub enum PolicyAction {
    Accept,
    Reject,
}

/// One rule. `None` stands for the wildcard `*`.
#[derive(Debug, Clone, Copy)]
pub struct ExitRule {
    pub action: PolicyAction,
    pub net: Option<(Ipv4Addr, u8)>,
    pub port: Option<u16>,
}

#[derive(Debug)]
pub struct ExitPolicy {
    pub rules: Vec<ExitRule>,
}

/// What is wrong with a line of a policy file.
#[derive(Debug, Clone, Copy, PartialEq, Eq, Structural)]
pub enum PolicyErrorKind {
    UnknownAction,
    MissingTarget,
    MissingPort,
    BadPrefix,
    BadAddress,
    BadPort,
}

/// The first bad line of a policy file, counted from 1, and the words that are wrong in it.
#[derive(Debug)]
pub struct PolicyError {
    pub line: usize,
    pub kind: PolicyErrorKind,
    pub text: Vec<char>,
}

/// A `PolicyError` as a mathematical value.
pub ghost struct PolicyErrorView {
    pub line: nat,
    pub kind: PolicyErrorKind,
    pub text: Seq<char>,
}

impl View for PolicyError {
    type V = PolicyErrorView;

    open spec fn view(&self) -> PolicyErrorView {
        PolicyErrorView { line: self.line as nat, kind: self.kind, text: self.text@ }
    }
}

impl View for ExitPolicy {
    type V = Seq<ExitRule>;

    open spec fn view(&self) -> Seq<ExitRule> {
        self.rules@
    }
}

/// Whether a rule speaks of a destination.
pub open spec fn rule_matches(rule: ExitRule, ip: Ipv4Addr, port: u16) -> bool {
    &&& match rule.net {
        None => true,
        Some((net, prefix)) => addr::in_cidr(ip, net, prefix),
    }
    &&& match rule.port {
        None => true,
        Some(p) => p == port,
    }
}

/// What a policy says of a destination: the action of the first rule that matches, and reject if
/// none does.
pub open spec fn verdict(rules: Seq<ExitRule>, ip: Ipv4Addr, port: u16) -> PolicyAction
    decreases rules.len(),
{
    if rules.len() == 0 {
        PolicyAction::Reject
    } else if rule_matches(rules[0], ip, port) {
        rules[0].action
    } else {
        verdict(rules.drop_first(), ip, port)
    }
}

/// What one line of a policy file holds.
pub ghost enum Line {
    Blank,
    Rule(ExitRule),
    Bad(PolicyErrorKind, Seq<char>),
}

/// The address part of a rule, in front of the last colon.
pub open spec fn parse_net(s: Seq<char>) -> Result<
    Option<(Ipv4Addr, u8)>,
    (PolicyErrorKind, Seq<char>),
> {
    let slash = text::find_from(s, '/', 0);
    if s == "*"@ {
        Ok(None)
    } else if slash < s.len() {
        let net = s.take(slash);
        let prefix = s.skip(slash + 1);
        match (text::parse_number(prefix, 255), addr::parse_ipv4(net)) {
            (None, _) => Err((PolicyErrorKind::BadPrefix, prefix)),
            (_, None) => Err((PolicyErrorKind::BadAddress, net)),
            (Some(p), Some(ip)) => Ok(Some((ip, p as u8))),
        }
    } else {
        match addr::parse_ipv4(s) {
            None => Err((PolicyErrorKind::BadAddress, s)),
            Some(ip) => Ok(Some((ip, 32u8))),
        }
    }
}

/// The port part of a rule, behind the last colon.
pub open spec fn parse_port(s: Seq<char>) -> Result<Option<u16>, (PolicyErrorKind, Seq<char>)> {
    if s == "*"@ {
        Ok(None)
    } else {
        match text::parse_number(s, 65535) {
            None => Err((PolicyErrorKind::BadPort, s)),
            Some(p) => Ok(Some(p as u16)),
        }
    }
}

/// `<ip-or-cidr>:<port-or-*>`.
pub open spec fn parse_target(action: PolicyAction, s: Seq<char>) -> Line {
    let colon = text::find_back(s, ':', s.len() as int);
    if colon < 0 {
        Line::Bad(PolicyErrorKind::MissingPort, s)
    } else {
        match (parse_net(s.take(colon)), parse_port(s.skip(colon + 1))) {
            (Err(e), _) => Line::Bad(e.0, e.1),
            (_, Err(e)) => Line::Bad(e.0, e.1),
            (Ok(net), Ok(port)) => Line::Rule(ExitRule { action, net, port }),
        }
    }
}

/// The action that a word names, in any mix of capitals and small letters.
pub open spec fn parse_action(word: Seq<char>) -> Option<PolicyAction> {
    if text::lower(word) == "accept"@ {
        Some(PolicyAction::Accept)
    } else if text::lower(word) == "reject"@ {
        Some(PolicyAction::Reject)
    } else {
        None
    }
}

/// A line up to its comment: an action and a target, in the first two words.
pub open spec fn parse_code(s: Seq<char>) -> Line {
    let n = s.len() as int;
    let word = text::skip_white(s, 0);
    let word_end = text::skip_word(s, word);
    let target = text::skip_white(s, word_end);
    let target_end = text::skip_word(s, target);
    if word == n {
        Line::Blank
    } else {
        match parse_action(s.subrange(word, word_end)) {
            None => Line::Bad(
                PolicyErrorKind::UnknownAction,
                text::lower(s.subrange(word, word_end)),
            ),
            Some(action) => if target == n {
                Line::Bad(PolicyErrorKind::MissingTarget, Seq::empty())
            } else {
                parse_target(action, s.subrange(target, target_end))
            },
        }
    }
}

pub open spec fn parse_line(line: Seq<char>) -> Line {
    parse_code(line.take(text::find_from(line, '#', 0)))
}

/// The rules of the lines of `s` that begin at `i`, behind the rules that earlier lines gave.
/// `count` lines came before; the first bad line decides the error.
pub open spec fn parse_lines(s: Seq<char>, i: nat, count: nat, rules: Seq<ExitRule>) -> Result<
    Seq<ExitRule>,
    PolicyErrorView,
>
    decreases s.len() + 1 - i,
{
    if i >= s.len() {
        Ok(rules)
    } else {
        proof {
            text::lemma_find_from(s, '\n', i as int);
        }
        let end = text::find_from(s, '\n', i as int);
        match parse_line(s.subrange(i as int, end)) {
            Line::Blank => parse_lines(s, (end + 1) as nat, count + 1, rules),
            Line::Rule(rule) => parse_lines(s, (end + 1) as nat, count + 1, rules.push(rule)),
            Line::Bad(kind, text) => Err(PolicyErrorView { line: count + 1, kind, text }),
        }
    }
}

/// What a policy file says.
pub open spec fn parse_policy(s: Seq<char>) -> Result<Seq<ExitRule>, PolicyErrorView> {
    parse_lines(s, 0, 0, Seq::empty())
}

/// What one line of a policy file was found to hold.
enum ReadLine {
    Blank,
    Rule(ExitRule),
    Bad(PolicyErrorKind, Vec<char>),
}

impl View for ReadLine {
    type V = Line;

    closed spec fn view(&self) -> Line {
        match self {
            ReadLine::Blank => Line::Blank,
            ReadLine::Rule(rule) => Line::Rule(*rule),
            ReadLine::Bad(kind, words) => Line::Bad(*kind, words@),
        }
    }
}

fn read_net(s: &[char]) -> (r: Result<Option<(Ipv4Addr, u8)>, (PolicyErrorKind, Vec<char>)>)
    ensures
        match r {
            Ok(net) => parse_net(s@) == Ok::<_, (PolicyErrorKind, Seq<char>)>(net),
            Err(e) => parse_net(s@) == Err::<Option<(Ipv4Addr, u8)>, _>((e.0, e.1@)),
        },
{
    if text::chars_are(s, "*") {
        return Ok(None);
    }
    let n: usize = s.len();
    let slash: usize = text::position_from(s, '/', 0);
    if slash < n {
        let net = vstd::slice::slice_subrange(s, 0, slash);
        let prefix = vstd::slice::slice_subrange(s, slash + 1, n);
        assert(net@ =~= s@.take(slash as int));
        assert(prefix@ =~= s@.skip(slash + 1));
        match text::read_number(prefix, 255) {
            None => Err((PolicyErrorKind::BadPrefix, vstd::slice::slice_to_vec(prefix))),
            Some(p) => match addr::read_ipv4(net) {
                None => Err((PolicyErrorKind::BadAddress, vstd::slice::slice_to_vec(net))),
                Some(ip) => Ok(Some((ip, p as u8))),
            },
        }
    } else {
        match addr::read_ipv4(s) {
            None => Err((PolicyErrorKind::BadAddress, vstd::slice::slice_to_vec(s))),
            Some(ip) => Ok(Some((ip, 32))),
        }
    }
}

fn read_port(s: &[char]) -> (r: Result<Option<u16>, (PolicyErrorKind, Vec<char>)>)
    ensures
        match r {
            Ok(port) => parse_port(s@) == Ok::<_, (PolicyErrorKind, Seq<char>)>(port),
            Err(e) => parse_port(s@) == Err::<Option<u16>, _>((e.0, e.1@)),
        },
{
    if text::chars_are(s, "*") {
        return Ok(None);
    }
    match text::read_number(s, 65535) {
        None => Err((PolicyErrorKind::BadPort, vstd::slice::slice_to_vec(s))),
        Some(p) => Ok(Some(p as u16)),
    }
}

fn read_target(action: PolicyAction, s: &[char]) -> (r: ReadLine)
    ensures
        r@ == parse_target(action, s@),
{
    let n: usize = s.len();
    match text::last_position(s, ':') {
        None => ReadLine::Bad(PolicyErrorKind::MissingPort, vstd::slice::slice_to_vec(s)),
        Some(colon) => {
            let ip_part = vstd::slice::slice_subrange(s, 0, colon);
            let port_part = vstd::slice::slice_subrange(s, colon + 1, n);
            assert(ip_part@ =~= s@.take(colon as int));
            assert(port_part@ =~= s@.skip(colon + 1));
            match read_net(ip_part) {
                Err(e) => ReadLine::Bad(e.0, e.1),
                Ok(net) => match read_port(port_part) {
                    Err(e) => ReadLine::Bad(e.0, e.1),
                    Ok(port) => ReadLine::Rule(ExitRule { action, net, port }),
                },
            }
        },
    }
}

fn read_code(s: &[char]) -> (r: ReadLine)
    ensures
        r@ == parse_code(s@),
{
    let n: usize = s.len();
    let word: usize = text::after_white(s, 0);
    if word == n {
        return ReadLine::Blank;
    }
    let word_end: usize = text::after_word(s, word);
    let name = text::to_lower(vstd::slice::slice_subrange(s, word, word_end));
    let action = if text::chars_are(name.as_slice(), "accept") {
        PolicyAction::Accept
    } else if text::chars_are(name.as_slice(), "reject") {
        PolicyAction::Reject
    } else {
        return ReadLine::Bad(PolicyErrorKind::UnknownAction, name);
    };
    proof {
        reveal_strlit("accept");
        reveal_strlit("reject");
        assert("accept"@[0] != "reject"@[0]);
    }
    let target: usize = text::after_white(s, word_end);
    if target == n {
        let none: Vec<char> = Vec::new();
        return ReadLine::Bad(PolicyErrorKind::MissingTarget, none);
    }
    let target_end: usize = text::after_word(s, target);
    read_target(action, vstd::slice::slice_subrange(s, target, target_end))
}

fn read_line(line: &[char]) -> (r: ReadLine)
    ensures
        r@ == parse_line(line@),
{
    let end: usize = text::position_from(line, '#', 0);
    let code = vstd::slice::slice_subrange(line, 0, end);
    assert(code@ =~= line@.take(end as int));
    read_code(code)
}

impl Clone for ExitPolicy {
    fn clone(&self) -> (r: ExitPolicy)
        ensures
            r@ == self@,
    {
        ExitPolicy { rules: self.rules.clone() }
    }
}

impl Default for ExitPolicy {
    fn default() -> (r: ExitPolicy)
        ensures
            r@ == Seq::<ExitRule>::empty(),
    {
        ExitPolicy { rules: Vec::new() }
    }
}

impl ExitPolicy {
    /// The default, safe policy: reject every exit connection.
    pub fn reject_all() -> (r: ExitPolicy)
        ensures
            r@ == Seq::<ExitRule>::empty(),
    {
        ExitPolicy { rules: Vec::new() }
    }

    /// Parses the text of a policy file.
    pub fn parse(text: &str) -> (r: Result<ExitPolicy, PolicyError>)
        ensures
            match r {
                Ok(policy) => parse_policy(text@) == Ok::<_, PolicyErrorView>(policy@),
                Err(e) => parse_policy(text@) == Err::<Seq<ExitRule>, _>(e@),
            },
    {
        let chars = text::chars_of(text);
        let s = chars.as_slice();
        let n: usize = s.len();
        let mut rules: Vec<ExitRule> = Vec::new();
        let mut count: usize = 0;
        let mut i: usize = 0;
        while i < n
            invariant
                n == s@.len(),
                s@ == text@,
                count <= i <= n,
                parse_policy(text@) == parse_lines(s@, i as nat, count as nat, rules@),
            decreases n - i,
        {
            let end: usize = text::position_from(s, '\n', i);
            let line = vstd::slice::slice_subrange(s, i, end);
            match read_line(line) {
                ReadLine::Blank => {},
                ReadLine::Rule(rule) => {
                    rules.push(rule);
                },
                ReadLine::Bad(kind, text) => {
                    return Err(PolicyError { line: count + 1, kind, text });
                },
            }
            if end == n {
                assert(parse_lines(s@, (end + 1) as nat, (count + 1) as nat, rules@)
                    == Ok::<_, PolicyErrorView>(rules@));
                return Ok(ExitPolicy { rules });
            }
            i = end + 1;
            count = count + 1;
        }
        Ok(ExitPolicy { rules })
    }

    /// Evaluates the policy for an IPv4 destination.
    pub fn is_allowed(&self, target_ip: Ipv4Addr, target_port: u16) -> (r: bool)
        ensures
            r == (verdict(self@, target_ip, target_port) == PolicyAction::Accept),
    {
        let n: usize = self.rules.len();
        let mut i: usize = 0;
        proof {
            assert(self@.skip(0) =~= self@);
        }
        while i < n
            invariant
                n == self.rules@.len(),
                i <= n,
                verdict(self@, target_ip, target_port) == verdict(
                    self@.skip(i as int),
                    target_ip,
                    target_port,
                ),
            decreases n - i,
        {
            let rule = self.rules[i];
            let ip_match = match rule.net {
                None => true,
                Some((net, prefix)) => addr::ipv4_in_cidr(target_ip, net, prefix),
            };
            let port_match = match rule.port {
                None => true,
                Some(p) => p == target_port,
            };
            assert(self@.skip(i as int)[0] == rule);
            assert(self@.skip(i as int).drop_first() =~= self@.skip(i + 1));
            if ip_match && port_match {
                return rule.action == PolicyAction::Accept;
            }
            i = i + 1;
        }
        false
    }
}

/// The words in which an error is reported.
pub open spec fn error_message(e: PolicyErrorView) -> Seq<char> {
    let head = "exit-policy line "@ + text::decimal(e.line) + ": "@;
    match e.kind {
        PolicyErrorKind::UnknownAction => head + "unknown action '"@ + e.text
            + "' (expected accept/reject)"@,
        PolicyErrorKind::MissingTarget => head + "missing <ip-or-cidr>:<port-or-*>"@,
        PolicyErrorKind::MissingPort => head + "expected '<ip-or-cidr>:<port-or-*>', got '"@
            + e.text + "'"@,
        PolicyErrorKind::BadPrefix => head + "bad CIDR prefix '"@ + e.text + "'"@,
        PolicyErrorKind::BadAddress => head + "bad IPv4 address '"@ + e.text + "'"@,
        PolicyErrorKind::BadPort => head + "bad port '"@ + e.text + "'"@,
    }
}

fn append_quoted(target: &mut Vec<char>, before: &str, words: &[char], after: &str)
    ensures
        final(target)@ == old(target)@ + before@ + words@ + after@,
{
    text::append_str(target, before);
    text::append_chars(target, words);
    text::append_str(target, after);
}

impl PolicyError {
    pub fn message(&self) -> (r: String)
        ensures
            r@ == error_message(self@),
    {
        let mut out: Vec<char> = Vec::new();
        text::append_str(&mut out, "exit-policy line ");
        text::append_decimal(&mut out, self.line as u64);
        text::append_str(&mut out, ": ");
        assert(out@ =~= "exit-policy line "@ + text::decimal(self.line as nat) + ": "@);
        let words = self.text.as_slice();
        match self.kind {
            PolicyErrorKind::UnknownAction => append_quoted(
                &mut out,
                "unknown action '",
                words,
                "' (expected accept/reject)",
            ),
            PolicyErrorKind::MissingTarget => text::append_str(
                &mut out,
                "missing <ip-or-cidr>:<port-or-*>",
            ),
            PolicyErrorKind::MissingPort => append_quoted(
                &mut out,
                "expected '<ip-or-cidr>:<port-or-*>', got '",
                words,
                "'",
            ),
            PolicyErrorKind::BadPrefix => append_quoted(&mut out, "bad CIDR prefix '", words, "'"),
            PolicyErrorKind::BadAddress => append_quoted(&mut out, "bad IPv4 address '", words, "'"),
            PolicyErrorKind::BadPort => append_quoted(&mut out, "bad port '", words, "'"),
        }
        text::string_of(out.as_slice())
    }
}

/// A policy without rules rejects every destination.
pub proof fn law_no_rules_reject_all(ip: Ipv4Addr, port: u16)
    ensures
        verdict(Seq::empty(), ip, port) == PolicyAction::Reject,
{
}

/// The first rule that matches decides, whatever stands behind it.
pub proof fn law_first_match_wins(rules: Seq<ExitRule>, i: int, ip: Ipv4Addr, port: u16)
    requires
        0 <= i < rules.len(),
        rule_matches(rules[i], ip, port),
        forall|j: int| 0 <= j < i ==> !rule_matches(#[trigger] rules[j], ip, port),
    ensures
        verdict(rules, ip, port) == rules[i].action,
    decreases rules.len(),
{
    if i > 0 {
        let rest = rules.drop_first();
        assert forall|j: int| 0 <= j < i - 1 implies !rule_matches(#[trigger] rest[j], ip, port) by {
            assert(rest[j] == rules[j + 1]);
        }
        law_first_match_wins(rest, i - 1, ip, port);
    }
}

/// A destination that no rule matches is rejected.
pub proof fn law_final_reject(rules: Seq<ExitRule>, ip: Ipv4Addr, port: u16)
    requires
        forall|j: int| 0 <= j < rules.len() ==> !rule_matches(#[trigger] rules[j], ip, port),
    ensures
        verdict(rules, ip, port) == PolicyAction::Reject,
    decreases rules.len(),
{
    if rules.len() > 0 {
        let rest = rules.drop_first();
        assert forall|j: int| 0 <= j < rest.len() implies !rule_matches(
            #[trigger] rest[j],
            ip,
            port,
        ) by {
            assert(rest[j] == rules[j + 1]);
        }
        law_final_reject(rest, ip, port);
    }
}

/// A destination is accepted only where some rule accepts it.
pub proof fn law_accept_needs_a_rule(rules: Seq<ExitRule>, ip: Ipv4Addr, port: u16)
    requires
        verdict(rules, ip, port) == PolicyAction::Accept,
    ensures
        exists|i: int|
            0 <= i < rules.len() && rule_matches(#[trigger] rules[i], ip, port) && rules[i].action
                == PolicyAction::Accept,
    decreases rules.len(),
{
    if rule_matches(rules[0], ip, port) {
    } else {
        let rest = rules.drop_first();
        law_accept_needs_a_rule(rest, ip, port);
        let i = choose|i: int|
            0 <= i < rest.len() && rule_matches(#[trigger] rest[i], ip, port) && rest[i].action
                == PolicyAction::Accept;
        assert(rest[i] == rules[i + 1]);
    }
}

/// What stands behind `#` changes nothing.
pub proof fn law_comments_are_ignored(code: Seq<char>, comment: Seq<char>)
    requires
        !code.contains('#'),
    ensures
        parse_line(code + seq!['#'] + comment) == parse_line(code),
{
    let line = code + seq!['#'] + comment;
    text::lemma_find_from(line, '#', 0);
    text::lemma_find_from(code, '#', 0);
    let i = text::find_from(line, '#', 0);
    let j = text::find_from(code, '#', 0);
    assert(line[code.len() as int] == '#');
    if i < code.len() {
        assert(code[i] == line[i]);
    }
    if j < code.len() {
        assert(code.contains(code[j]));
    }
    assert(line.take(i) =~= code.take(j));
}

/// The block `/0` holds every address, and the block `/32` one.
pub proof fn law_cidr_ends(ip: Ipv4Addr, net: Ipv4Addr)
    ensures
        addr::in_cidr(ip, net, 0),
        addr::in_cidr(ip, net, 32) <==> ip == net,
{
    vstd::arithmetic::power2::lemma2_to64();
    vstd::arithmetic::div_mod::lemma_basic_div(
        ip.number() as int,
        vstd::arithmetic::power2::pow2(32) as int,
    );
    vstd::arithmetic::div_mod::lemma_basic_div(
        net.number() as int,
        vstd::arithmetic::power2::pow2(32) as int,
    );
    assert(vstd::arithmetic::power2::pow2(0) == 1);
    assert(ip.number() / 1 == ip.number() && net.number() / 1 == net.number());
    if ip.number() == net.number() {
        assert(ip.a == net.a);
        assert(ip.b == net.b);
        assert(ip.c == net.c);
    }
}

/// A longer prefix names a smaller block.
pub proof fn law_cidr_nests(ip: Ipv4Addr, net: Ipv4Addr, long: u8, short: u8)
    requires
        short <= long,
        addr::in_cidr(ip, net, long),
    ensures
        addr::in_cidr(ip, net, short),
{
    let f = |p: u8| {
        if p < 32 {
            (32 - p) as nat
        } else {
            0
        }
    };
    let a = f(long);
    let b = f(short);
    let d = (b - a) as nat;
    vstd::arithmetic::power2::lemma_pow2_pos(a);
    vstd::arithmetic::power2::lemma_pow2_pos(d);
    vstd::arithmetic::power2::lemma_pow2_adds(a, d);
    let pa = vstd::arithmetic::power2::pow2(a) as int;
    let pd = vstd::arithmetic::power2::pow2(d) as int;
    vstd::arithmetic::div_mod::lemma_div_denominator(ip.number() as int, pa, pd);
    vstd::arithmetic::div_mod::lemma_div_denominator(net.number() as int, pa, pd);
}

} // verus!

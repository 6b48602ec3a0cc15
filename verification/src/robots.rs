//! robots.txt parsing and path checks.
use vstd::prelude::*;
use crate::text::{
    chars_of, contains_vec, eq_chars, eq_lit, first_index, has_prefix, index_of, lines,
    lower_chars, split_lines, starts_with, string_of, sub_vec, trim, trim_chars, unicode_lowercase,
    views,
};

verus! {

/// A single robot rule (Allow or Disallow).
#[derive(Debug, Clone)]
struct RobotRule {
    /// Path pattern to match against
    path: String,
    /// Whether this is an Allow (true) or Disallow (false) rule
    allow: bool,
}

/// The contents of a robot rule.
pub ghost struct RuleView {
    /// Path prefix the rule applies to
    pub path: Seq<char>,
    /// Whether the rule allows (true) or disallows (false)
    pub allow: bool,
}

impl RobotRule {
    spec fn view(&self) -> RuleView {
        RuleView { path: self.path@, allow: self.allow }
    }
}

/// robots.txt rules grouped by (lowercased) user-agent.
#[derive(Debug)]
pub struct RobotsTxt {
    rules: Vec<(Vec<char>, Vec<RobotRule>)>,
}

/// The rules of one agent.
spec fn rule_views(rs: Seq<RobotRule>) -> Seq<RuleView> {
    rs.map_values(|r: RobotRule| r.view())
}

/// The map that an association list of agents and rules stands for.
spec fn assoc_map(s: Seq<(Vec<char>, Vec<RobotRule>)>) -> Map<Seq<char>, Seq<RuleView>>
    decreases s.len(),
{
    if s.len() == 0 {
        Map::empty()
    } else {
        assoc_map(s.drop_last()).insert(s.last().0@, rule_views(s.last().1@))
    }
}

impl View for RobotsTxt {
    type V = Map<Seq<char>, Seq<RuleView>>;

    closed spec fn view(&self) -> Map<Seq<char>, Seq<RuleView>> {
        assoc_map(self.rules@)
    }
}

/// Add a rule to the end of an agent's rules.
pub open spec fn map_push(
    rules: Map<Seq<char>, Seq<RuleView>>,
    agent: Seq<char>,
    rule: RuleView,
) -> Map<Seq<char>, Seq<RuleView>> {
    rules.insert(
        agent,
        if rules.contains_key(agent) {
            rules[agent].push(rule)
        } else {
            seq![rule]
        },
    )
}

/// Add a rule to each of the agents, in order.
pub open spec fn add_rule_all(
    rules: Map<Seq<char>, Seq<RuleView>>,
    agents: Seq<Seq<char>>,
    rule: RuleView,
) -> Map<Seq<char>, Seq<RuleView>>
    decreases agents.len(),
{
    if agents.len() == 0 {
        rules
    } else {
        map_push(add_rule_all(rules, agents.drop_last(), rule), agents.last(), rule)
    }
}

/// The parser's state: rules so far, the user-agents of the current group,
/// and whether that group has had a rule line yet.
pub ghost struct RobotsState {
    /// Rules per agent
    pub rules: Map<Seq<char>, Seq<RuleView>>,
    /// Agents of the current group
    pub agents: Seq<Seq<char>>,
    /// Whether an `Allow` or `Disallow` line followed the group's agents
    pub in_rules: bool,
}

/// A line with any `#` comment removed.
pub open spec fn cut_comment(line: Seq<char>) -> Seq<char> {
    match first_index(line, '#') {
        Some(p) => line.take(p),
        None => line,
    }
}

/// The effect of one line of robots.txt. A `User-agent` line after a rule
/// line starts a new group (RFC 9309); consecutive `User-agent` lines name
/// the agents of one group; `Allow` and `Disallow` apply to the agents of
/// the current group.
pub open spec fn line_effect(st: RobotsState, line: Seq<char>) -> RobotsState {
    let t = trim(cut_comment(line));
    if t.len() == 0 {
        st
    } else {
        match first_index(t, ':') {
            None => st,
            Some(p) => {
                field_effect(st, unicode_lowercase(trim(t.take(p))), trim(t.skip(p + 1)))
            },
        }
    }
}

/// The effect of a `field: value` line (the field lowercased).
pub open spec fn field_effect(st: RobotsState, field: Seq<char>, value: Seq<char>) -> RobotsState {
    if field == "user-agent"@ {
        let a = unicode_lowercase(value);
        if st.in_rules {
            RobotsState { agents: seq![a], in_rules: false, ..st }
        } else if st.agents.contains(a) {
            st
        } else {
            RobotsState { agents: st.agents.push(a), ..st }
        }
    } else if field == "disallow"@ {
        RobotsState {
            rules: add_rule_all(st.rules, st.agents, RuleView { path: value, allow: false }),
            in_rules: true,
            ..st
        }
    } else if field == "allow"@ {
        RobotsState {
            rules: add_rule_all(st.rules, st.agents, RuleView { path: value, allow: true }),
            in_rules: true,
            ..st
        }
    } else {
        st
    }
}

/// The parser's state after a sequence of lines.
pub open spec fn robots_run(ls: Seq<Seq<char>>) -> RobotsState
    decreases ls.len(),
{
    if ls.len() == 0 {
        RobotsState { rules: Map::empty(), agents: Seq::empty(), in_rules: false }
    } else {
        line_effect(robots_run(ls.drop_last()), ls.last())
    }
}

/// The rules robots.txt content parses to.
pub open spec fn parse_robots(content: Seq<char>) -> Map<Seq<char>, Seq<RuleView>> {
    robots_run(lines(content)).rules
}

/// The longest matching rule so far: its length and whether it allows.
/// (All matching rules are prefixes of one path, so their lengths in
/// characters and in bytes are in the same order.)
pub open spec fn best_match(rules: Seq<RuleView>, path: Seq<char>) -> (nat, bool)
    decreases rules.len(),
{
    if rules.len() == 0 {
        (0, true)
    } else {
        let prev = best_match(rules.drop_last(), path);
        let r = rules.last();
        if r.path.len() == 0 && !r.allow {
            prev
        } else if has_prefix(path, r.path) && r.path.len() > prev.0 {
            (r.path.len(), r.allow)
        } else {
            prev
        }
    }
}

/// Whether a path is allowed by a list of rules: the longest matching rule
/// decides; no match allows.
pub open spec fn allowed_by(rules: Seq<RuleView>, path: Seq<char>) -> bool {
    let b = best_match(rules, path);
    if b.0 > 0 {
        b.1
    } else {
        true
    }
}

/// Whether robots rules allow a path for a user-agent: the agent's own
/// rules (by lowercased name), else those of `*`, else everything is allowed.
pub open spec fn robots_allows(
    rules: Map<Seq<char>, Seq<RuleView>>,
    path: Seq<char>,
    user_agent: Seq<char>,
) -> bool {
    let ua = unicode_lowercase(user_agent);
    if rules.contains_key(ua) {
        allowed_by(rules[ua], path)
    } else if rules.contains_key("*"@) {
        allowed_by(rules["*"@], path)
    } else {
        true
    }
}

/// No key occurs twice in an association list.
spec fn keys_unique(s: Seq<(Vec<char>, Vec<RobotRule>)>) -> bool {
    forall|i: int, j: int| 0 <= i < j < s.len() ==> s[i].0@ != s[j].0@
}

proof fn lemma_assoc_lookup(s: Seq<(Vec<char>, Vec<RobotRule>)>, k: Seq<char>)
    requires
        keys_unique(s),
    ensures
        assoc_map(s).contains_key(k) <==> exists|i: int| 0 <= i < s.len() && s[i].0@ == k,
        forall|i: int| 0 <= i < s.len() && s[i].0@ == k ==> assoc_map(s)[k] == rule_views(#[trigger] s[i].1@),
    decreases s.len(),
{
    if s.len() > 0 {
        lemma_assoc_lookup(s.drop_last(), k);
        assert forall|i: int| 0 <= i < s.len() - 1 implies s.drop_last()[i] == s[i] by {}
    }
}

proof fn lemma_assoc_update(s: Seq<(Vec<char>, Vec<RobotRule>)>, idx: int, v: Vec<RobotRule>)
    requires
        keys_unique(s),
        0 <= idx < s.len(),
    ensures
        keys_unique(s.update(idx, (s[idx].0, v))),
        assoc_map(s.update(idx, (s[idx].0, v))) == assoc_map(s).insert(s[idx].0@, rule_views(v@)),
    decreases s.len(),
{
    let t = s.update(idx, (s[idx].0, v));
    if idx == s.len() - 1 {
        assert(t.drop_last() =~= s.drop_last());
        lemma_assoc_lookup(s.drop_last(), s[idx].0@);
        assert(assoc_map(t) =~= assoc_map(s).insert(s[idx].0@, rule_views(v@)));
    } else {
        lemma_assoc_update(s.drop_last(), idx, v);
        assert(t.drop_last() =~= s.drop_last().update(idx, (s[idx].0, v)));
        assert(assoc_map(t) =~= assoc_map(s).insert(s[idx].0@, rule_views(v@)));
    }
}

impl RobotsTxt {
    /// Each agent has one list of rules.
    #[verifier::type_invariant]
    spec fn wf(self) -> bool {
        keys_unique(self.rules@)
    }

    /// Index of an agent's rules.
    fn find_agent(&self, agent: &Vec<char>) -> (r: Option<usize>)
        ensures
            match r {
                Some(k) => self@.contains_key(agent@) && k < self.rules@.len() && self@[agent@]
                    == rule_views(self.rules@[k as int].1@),
                None => !self@.contains_key(agent@),
            },
    {
        proof {
            use_type_invariant(self);
            lemma_assoc_lookup(self.rules@, agent@);
        }
        let mut k: usize = 0;
        while k < self.rules.len()
            invariant
                k <= self.rules.len(),
                forall|m: int| 0 <= m < k ==> self.rules@[m].0@ != agent@,
            decreases self.rules.len() - k,
        {
            if eq_chars(self.rules[k].0.as_slice(), agent.as_slice()) {
                proof {
                    use_type_invariant(self);
                    lemma_assoc_lookup(self.rules@, agent@);
                }
                return Some(k);
            }
            k += 1;
        }
        None
    }

    /// Check if a URL path is allowed for a given user-agent: the agent's
    /// own rules (by lowercased name), else those of `*`; the longest
    /// matching rule decides, and with no matching rule the path is allowed.
    pub fn is_allowed(&self, path: &str, user_agent: &str) -> (r: bool)
        ensures
            r == robots_allows(self@, path@, user_agent@),
    {
        let ua = lower_chars(&chars_of(user_agent));
        let star = chars_of("*");
        let idx = match self.find_agent(&ua) {
            Some(k) => Some(k),
            None => self.find_agent(&star),
        };
        match idx {
            None => true,
            Some(k) => {
                let p = chars_of(path);
                let rules = &self.rules[k].1;
                let mut best_len: usize = 0;
                let mut best_allow = true;
                let mut j: usize = 0;
                while j < rules.len()
                    invariant
                        j <= rules.len(),
                        p@ == path@,
                        (best_len as nat, best_allow) == best_match(
                            rule_views(rules@).take(j as int),
                            path@,
                        ),
                    decreases rules.len() - j,
                {
                    proof {
                        assert(rule_views(rules@).take(j + 1).drop_last() =~= rule_views(
                            rules@,
                        ).take(j as int));
                        assert(rule_views(rules@).take(j + 1).last() == rules@[j as int].view());
                    }
                    let rule = &rules[j];
                    let rp = chars_of(rule.path.as_str());
                    if rp.len() == 0 && !rule.allow {
                    } else if starts_with(p.as_slice(), rp.as_slice()) {
                        let match_len = rp.len();
                        if match_len > best_len {
                            best_len = match_len;
                            best_allow = rule.allow;
                        }
                    }
                    j += 1;
                }
                assert(rule_views(rules@).take(rules@.len() as int) =~= rule_views(rules@));
                if best_len > 0 {
                    best_allow
                } else {
                    true
                }
            },
        }
    }

    /// Parse robots.txt content.
    pub fn parse(content: &str) -> (r: Self)
        ensures
            r@ == parse_robots(content@),
    {
        let chars = chars_of(content);
        let ls = split_lines(&chars);
        let mut rules: Vec<(Vec<char>, Vec<RobotRule>)> = Vec::new();
        let mut agents: Vec<Vec<char>> = Vec::new();
        let mut in_rules = false;
        let mut i: usize = 0;
        assert(views(ls@).take(0) =~= Seq::<Seq<char>>::empty());
        assert(views(agents@) =~= Seq::<Seq<char>>::empty());
        while i < ls.len()
            invariant
                i <= ls.len(),
                views(ls@) == lines(content@),
                keys_unique(rules@),
                robots_run(views(ls@).take(i as int)) == (RobotsState {
                    rules: assoc_map(rules@),
                    agents: views(agents@),
                    in_rules,
                }),
            decreases ls.len() - i,
        {
            proof {
                assert(views(ls@).take(i + 1).drop_last() =~= views(ls@).take(i as int));
                assert(views(ls@).take(i + 1).last() == ls@[i as int]@);
            }
            Self::apply_line(&mut rules, &mut agents, &mut in_rules, &ls[i]);
            i += 1;
        }
        assert(views(ls@).take(ls@.len() as int) =~= views(ls@));
        assert(keys_unique(rules@));
        RobotsTxt { rules }
    }

    /// Apply one line, as [`line_effect`] states.
    fn apply_line(
        rules: &mut Vec<(Vec<char>, Vec<RobotRule>)>,
        agents: &mut Vec<Vec<char>>,
        in_rules: &mut bool,
        line: &Vec<char>,
    )
        requires
            keys_unique(old(rules)@),
        ensures
            keys_unique(final(rules)@),
            line_effect(
                RobotsState { rules: assoc_map(old(rules)@), agents: views(old(agents)@), in_rules: *old(in_rules) },
                line@,
            ) == (RobotsState {
                rules: assoc_map(final(rules)@),
                agents: views(final(agents)@),
                in_rules: *final(in_rules),
            }),
    {
        let cut = match index_of(line.as_slice(), '#') {
            Some(p) => sub_vec(line, 0, p),
            None => line.clone(),
        };
        assert(cut@ == cut_comment(line@)) by {
            if let Some(p) = first_index(line@, '#') {
                assert(line@.take(p) =~= line@.subrange(0, p));
            }
        }
        let t = trim_chars(&cut);
        if t.len() > 0 {
            if let Some(p) = index_of(t.as_slice(), ':') {
                let f = trim_chars(&sub_vec(&t, 0, p));
                let field = lower_chars(&f);
                let value = trim_chars(&sub_vec(&t, p + 1, t.len()));
                proof {
                    assert(t@.take(p as int) =~= t@.subrange(0, p as int));
                    assert(t@.skip(p + 1) =~= t@.subrange(p + 1, t@.len() as int));
                }
                Self::apply_field(rules, agents, in_rules, &field, &value);
            }
        }
    }

    /// Apply one `field: value` line, as [`field_effect`] states.
    fn apply_field(
        rules: &mut Vec<(Vec<char>, Vec<RobotRule>)>,
        agents: &mut Vec<Vec<char>>,
        in_rules: &mut bool,
        field: &Vec<char>,
        value: &Vec<char>,
    )
        requires
            keys_unique(old(rules)@),
        ensures
            keys_unique(final(rules)@),
            field_effect(
                RobotsState { rules: assoc_map(old(rules)@), agents: views(old(agents)@), in_rules: *old(in_rules) },
                field@,
                value@,
            ) == (RobotsState {
                rules: assoc_map(final(rules)@),
                agents: views(final(agents)@),
                in_rules: *final(in_rules),
            }),
    {
        if eq_lit(field.as_slice(), "user-agent") {
            let a = lower_chars(value);
            if *in_rules {
                let mut fresh: Vec<Vec<char>> = Vec::new();
                let ghost av = a@;
                fresh.push(a);
                assert(views(fresh@) =~= seq![av]);
                *agents = fresh;
                *in_rules = false;
            } else if !contains_vec(agents, &a) {
                let ghost old_a = views(agents@);
                agents.push(a);
                assert(views(agents@) =~= old_a.push(a@));
            }
        } else if eq_lit(field.as_slice(), "disallow") {
            Self::add_to_all(rules, agents, value, false);
            *in_rules = true;
        } else if eq_lit(field.as_slice(), "allow") {
            Self::add_to_all(rules, agents, value, true);
            *in_rules = true;
        }
    }

    /// Add a rule to every agent in `agents`.
    fn add_to_all(
        rules: &mut Vec<(Vec<char>, Vec<RobotRule>)>,
        agents: &Vec<Vec<char>>,
        path: &Vec<char>,
        allow: bool,
    )
        requires
            keys_unique(old(rules)@),
        ensures
            keys_unique(final(rules)@),
            assoc_map(final(rules)@) == add_rule_all(
                assoc_map(old(rules)@),
                views(agents@),
                RuleView { path: path@, allow },
            ),
    {
        let ghost rule = RuleView { path: path@, allow };
        let mut j: usize = 0;
        while j < agents.len()
            invariant
                j <= agents.len(),
                keys_unique(rules@),
                rule == (RuleView { path: path@, allow }),
                assoc_map(rules@) == add_rule_all(
                    assoc_map(old(rules)@),
                    views(agents@).take(j as int),
                    rule,
                ),
            decreases agents.len() - j,
        {
            proof {
                assert(views(agents@).take(j + 1).drop_last() =~= views(agents@).take(j as int));
                assert(views(agents@).take(j + 1).last() == agents@[j as int]@);
            }
            Self::push_rule(rules, &agents[j], path, allow);
            j += 1;
        }
        assert(views(agents@).take(agents@.len() as int) =~= views(agents@));
    }

    /// Add a rule to the end of one agent's rules.
    fn push_rule(
        rules: &mut Vec<(Vec<char>, Vec<RobotRule>)>,
        agent: &Vec<char>,
        path: &Vec<char>,
        allow: bool,
    )
        requires
            keys_unique(old(rules)@),
        ensures
            keys_unique(final(rules)@),
            assoc_map(final(rules)@) == map_push(
                assoc_map(old(rules)@),
                agent@,
                RuleView { path: path@, allow },
            ),
    {
        let rule = RobotRule { path: string_of(path.as_slice()), allow };
        let ghost rv = rule.view();
        assert(rv == RuleView { path: path@, allow });
        let mut k: usize = 0;
        while k < rules.len()
            invariant
                k <= rules.len(),
                rules@ == old(rules)@,
                keys_unique(old(rules)@),
                rv == rule.view(),
                rv == (RuleView { path: path@, allow }),
                forall|m: int| 0 <= m < k ==> rules@[m].0@ != agent@,
            decreases rules.len() - k,
        {
            if eq_chars(rules[k].0.as_slice(), agent.as_slice()) {
                proof {
                    lemma_assoc_lookup(rules@, agent@);
                }
                let ghost old_s = rules@;
                let (key, mut entry_rules) = rules.remove(k);
                let ghost old_rules = entry_rules@;
                entry_rules.push(rule);
                rules.insert(k, (key, entry_rules));
                proof {
                    assert(rules@ =~= old_s.update(k as int, (old_s[k as int].0, entry_rules)));
                    lemma_assoc_update(old_s, k as int, entry_rules);
                    assert(entry_rules@ == old_rules.push(rule));
                    assert(rule_views(entry_rules@).len() == rule_views(old_rules).len() + 1);
                    assert forall|m: int| 0 <= m < rule_views(entry_rules@).len() implies
                        #[trigger] rule_views(entry_rules@)[m] == rule_views(old_rules).push(rv)[m] by {
                        if m < old_rules.len() {
                            assert(entry_rules@[m] == old_rules[m]);
                        } else {
                            assert(entry_rules@[m] == rule);
                        }
                    }
                    assert(rule_views(entry_rules@) =~= rule_views(old_rules).push(rv));
                }
                return;
            }
            k += 1;
        }
        proof {
            lemma_assoc_lookup(rules@, agent@);
        }
        let mut v: Vec<RobotRule> = Vec::new();
        v.push(rule);
        let ghost old_s = rules@;
        rules.push((agent.clone(), v));
        assert(rules@.drop_last() =~= old_s);
        assert(rule_views(v@) =~= seq![RuleView { path: path@, allow }]);
    }
}

/// With no rule matching, no rule is the longest match.
proof fn lemma_best_match_none(rules: Seq<RuleView>, path: Seq<char>)
    requires
        forall|i: int| 0 <= i < rules.len() ==> !has_prefix(path, (#[trigger] rules[i]).path),
    ensures
        best_match(rules, path).0 == 0,
    decreases rules.len(),
{
    if rules.len() > 0 {
        assert forall|i: int| 0 <= i < rules.drop_last().len() implies !has_prefix(path, (#[trigger] rules.drop_last()[i]).path) by {
            assert(rules.drop_last()[i] == rules[i]);
        }
        lemma_best_match_none(rules.drop_last(), path);
        assert(!has_prefix(path, rules[rules.len() - 1].path));
    }
}

/// Without any rules every path is allowed for every user-agent.
pub proof fn lemma_no_rules_allows_all(path: Seq<char>, user_agent: Seq<char>)
    ensures
        robots_allows(Map::empty(), path, user_agent),
{
}

/// A rule list without matching rules allows the path.
pub proof fn lemma_no_match_allows(rules: Seq<RuleView>, path: Seq<char>)
    requires
        forall|i: int| 0 <= i < rules.len() ==> !has_prefix(path, (#[trigger] rules[i]).path),
    ensures
        allowed_by(rules, path),
{
    lemma_best_match_none(rules, path);
}

/// Whether a rule takes part in matching a path: it is a prefix of the
/// path and is not an empty `Disallow` (which allows everything).
pub open spec fn rule_applies(r: RuleView, path: Seq<char>) -> bool {
    has_prefix(path, r.path) && !(r.path.len() == 0 && !r.allow)
}

/// The length the best match records is none, or that of an applying rule.
proof fn lemma_best_match_from_rule(rules: Seq<RuleView>, path: Seq<char>)
    ensures
        best_match(rules, path).0 == 0 || exists|i: int|
            0 <= i < rules.len() && rule_applies(rules[i], path) && (#[trigger] rules[i]).path.len()
                == best_match(rules, path).0,
    decreases rules.len(),
{
    if rules.len() > 0 {
        let d = rules.drop_last();
        lemma_best_match_from_rule(d, path);
        let prev = best_match(d, path);
        let r = rules.last();
        assert(rules[rules.len() - 1] == r);
        if prev.0 != 0 && best_match(rules, path).0 == prev.0 {
            let i = choose|i: int| 0 <= i < d.len() && rule_applies(d[i], path) && (#[trigger] d[i]).path.len() == prev.0;
            assert(rules[i] == d[i]);
        }
    }
}

/// The most specific rule decides: when one applying rule is longer than
/// every other applying rule, the path is allowed exactly when that rule is
/// an `Allow`.
pub proof fn lemma_longest_rule_decides(rules: Seq<RuleView>, path: Seq<char>, k: int)
    requires
        0 <= k < rules.len(),
        rule_applies(rules[k], path),
        rules[k].path.len() > 0,
        forall|i: int| 0 <= i < rules.len() && i != k && rule_applies(#[trigger] rules[i], path)
            ==> rules[i].path.len() < rules[k].path.len(),
    ensures
        allowed_by(rules, path) == rules[k].allow,
{
    lemma_longest_rule_prefix(rules, path, k);
}

/// When one applying rule is longer than every other applying rule, the
/// best match is that rule.
proof fn lemma_longest_rule_prefix(rules: Seq<RuleView>, path: Seq<char>, k: int)
    requires
        0 <= k < rules.len(),
        rule_applies(rules[k], path),
        rules[k].path.len() > 0,
        forall|i: int| 0 <= i < rules.len() && i != k && rule_applies(#[trigger] rules[i], path)
            ==> rules[i].path.len() < rules[k].path.len(),
    ensures
        best_match(rules, path) == (rules[k].path.len(), rules[k].allow),
    decreases rules.len(),
{
    let d = rules.drop_last();
    let r = rules.last();
    assert(rules[rules.len() - 1] == r);
    let prev = best_match(d, path);
    if k == rules.len() - 1 {
        lemma_best_match_from_rule(d, path);
        if prev.0 != 0 {
            let i = choose|i: int| 0 <= i < d.len() && rule_applies(d[i], path) && (#[trigger] d[i]).path.len() == prev.0;
            assert(rules[i] == d[i]);
        }
    } else {
        assert forall|i: int| 0 <= i < d.len() && i != k && rule_applies(#[trigger] d[i], path)
            implies d[i].path.len() < d[k].path.len() by {
            assert(d[i] == rules[i]);
        }
        assert(d[k] == rules[k]);
        lemma_longest_rule_prefix(d, path, k);
    }
}

/// The rules that decide for a user-agent: those recorded for its
/// lowercased name if there are any, else those for `*`, else none.
pub open spec fn agent_rules(rules: Map<Seq<char>, Seq<RuleView>>, user_agent: Seq<char>) -> Seq<RuleView> {
    let ua = unicode_lowercase(user_agent);
    if rules.contains_key(ua) {
        rules[ua]
    } else if rules.contains_key("*"@) {
        rules["*"@]
    } else {
        Seq::empty()
    }
}

/// Whether a rule matches a path: its path is not empty and starts the
/// path.
pub open spec fn rule_matches(r: RuleView, path: Seq<char>) -> bool {
    r.path.len() > 0 && has_prefix(path, r.path)
}

/// Without a matching rule the best match records nothing.
proof fn lemma_best_match_unmatched(rules: Seq<RuleView>, path: Seq<char>)
    requires
        forall|i: int| 0 <= i < rules.len() ==> !rule_matches(#[trigger] rules[i], path),
    ensures
        best_match(rules, path).0 == 0,
    decreases rules.len(),
{
    if rules.len() > 0 {
        assert forall|i: int| 0 <= i < rules.drop_last().len() implies !rule_matches(#[trigger] rules.drop_last()[i], path) by {
            assert(rules.drop_last()[i] == rules[i]);
        }
        lemma_best_match_unmatched(rules.drop_last(), path);
        assert(!rule_matches(rules[rules.len() - 1], path));
    }
}

/// The longest-match rule of robots.txt: a path is allowed for a
/// user-agent when none of the rules deciding for it (its own, else those
/// of `*`) matches the path; when one matching rule is longer than every
/// other matching rule, that rule's `Allow` or `Disallow` decides.
pub proof fn lemma_robots_longest_match(rules: Map<Seq<char>, Seq<RuleView>>, path: Seq<char>, user_agent: Seq<char>)
    ensures
        robots_allows(rules, path, user_agent) == allowed_by(agent_rules(rules, user_agent), path),
        (forall|i: int| 0 <= i < agent_rules(rules, user_agent).len()
            ==> !rule_matches(#[trigger] agent_rules(rules, user_agent)[i], path))
            ==> robots_allows(rules, path, user_agent),
        forall|k: int| 0 <= k < agent_rules(rules, user_agent).len() && rule_matches(agent_rules(rules, user_agent)[k], path)
            && (forall|i: int| 0 <= i < agent_rules(rules, user_agent).len() && i != k
                && rule_matches(#[trigger] agent_rules(rules, user_agent)[i], path)
                ==> agent_rules(rules, user_agent)[i].path.len() < agent_rules(rules, user_agent)[k].path.len())
            ==> robots_allows(rules, path, user_agent) == #[trigger] agent_rules(rules, user_agent)[k].allow,
{
    let r = agent_rules(rules, user_agent);
    if !rules.contains_key(unicode_lowercase(user_agent)) && !rules.contains_key("*"@) {
        assert(allowed_by(Seq::<RuleView>::empty(), path)) by {
            assert(best_match(Seq::<RuleView>::empty(), path).0 == 0);
        }
    }
    if forall|i: int| 0 <= i < r.len() ==> !rule_matches(#[trigger] r[i], path) {
        lemma_best_match_unmatched(r, path);
    }
    assert forall|k: int| 0 <= k < r.len() && rule_matches(r[k], path)
        && (forall|i: int| 0 <= i < r.len() && i != k && rule_matches(#[trigger] r[i], path)
            ==> r[i].path.len() < r[k].path.len())
        implies robots_allows(rules, path, user_agent) == #[trigger] r[k].allow by {
        assert forall|i: int| 0 <= i < r.len() && i != k && rule_applies(#[trigger] r[i], path)
            implies r[i].path.len() < r[k].path.len() by {
            if r[i].path.len() > 0 {
                assert(rule_matches(r[i], path));
            }
        }
        lemma_longest_rule_decides(r, path, k);
    }
}

} // verus!

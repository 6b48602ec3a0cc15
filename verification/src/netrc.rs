//! `.netrc` parsing: machine blocks with login and password, and a default block.
use vstd::prelude::*;
use crate::config::{AuthConfig, AuthType, AuthView};
use crate::text::{chars_of, eq_lit, join, lemma_words_join, no_ws, split_words, string_of, views, words};

verus! {

/// Entry in a `.netrc` file.
#[derive(Debug, Clone)]
pub struct NetrcEntry {
    /// Machine hostname (e.g., "example.com")
    pub machine: String,
    /// Login username
    pub login: String,
    /// Login password
    pub password: String,
}

/// The contents of a [`NetrcEntry`].
pub ghost struct EntryView {
    /// Machine hostname
    pub machine: Seq<char>,
    /// Login username
    pub login: Seq<char>,
    /// Login password
    pub password: Seq<char>,
}

impl View for NetrcEntry {
    type V = EntryView;

    open spec fn view(&self) -> EntryView {
        EntryView { machine: self.machine@, login: self.login@, password: self.password@ }
    }
}

/// Parsed `.netrc` content: the machine entries (a later entry for a
/// machine replaces an earlier one) and the default entry.
#[derive(Debug, Clone)]
pub struct Netrc {
    entries: Vec<NetrcEntry>,
    default: Option<NetrcEntry>,
}

/// The contents of a [`Netrc`].
pub ghost struct NetrcView {
    /// Machine entries in the order they were read
    pub entries: Seq<EntryView>,
    /// The default entry
    pub default: Option<EntryView>,
}

impl View for Netrc {
    type V = NetrcView;

    closed spec fn view(&self) -> NetrcView {
        NetrcView {
            entries: self.entries@.map_values(|e: NetrcEntry| e@),
            default: match self.default {
                Some(e) => Some(e@),
                None => None,
            },
        }
    }
}

/// The block the parser is in.
pub ghost enum Block {
    /// Outside any block
    Top,
    /// In the block of the named machine
    Machine(Seq<char>),
    /// In the default block
    Default,
}

/// What the next token is taken as.
#[derive(Clone, Copy, PartialEq, Eq, Structural)]
pub enum Expect {
    /// A keyword or an ignored token
    Keyword,
    /// The name after `machine`
    MachineName,
    /// The value after `login`
    Login,
    /// The value after `password`
    Password,
    /// The value after `account` or `macdef`, which is skipped
    Skip,
}

/// The state of the parser after some tokens.
pub ghost struct ParseState {
    /// Entries read so far
    pub entries: Seq<EntryView>,
    /// Default entry read so far
    pub default: Option<EntryView>,
    /// The current block
    pub block: Block,
    /// How the next token is taken
    pub expect: Expect,
    /// Login of the current block
    pub login: Seq<char>,
    /// Password of the current block
    pub password: Seq<char>,
}

/// The parser's state before any token.
pub open spec fn initial_state() -> ParseState {
    ParseState {
        entries: Seq::empty(),
        default: None,
        block: Block::Top,
        expect: Expect::Keyword,
        login: Seq::empty(),
        password: Seq::empty(),
    }
}

/// End the current block: a machine block with both a login and a password
/// becomes an entry; such a default block becomes the default entry.
pub open spec fn close_block(st: ParseState) -> ParseState {
    let complete = st.login.len() > 0 && st.password.len() > 0;
    match st.block {
        Block::Machine(name) => if complete {
            ParseState {
                entries: st.entries.push(
                    EntryView { machine: name, login: st.login, password: st.password },
                ),
                ..st
            }
        } else {
            st
        },
        Block::Default => if complete {
            ParseState {
                default: Some(
                    EntryView { machine: "default"@, login: st.login, password: st.password },
                ),
                ..st
            }
        } else {
            st
        },
        Block::Top => st,
    }
}

/// The parser's state after one more token.
pub open spec fn step(st: ParseState, tok: Seq<char>) -> ParseState {
    match st.expect {
        Expect::MachineName => ParseState {
            block: Block::Machine(tok),
            expect: Expect::Keyword,
            login: Seq::empty(),
            password: Seq::empty(),
            ..st
        },
        Expect::Login => ParseState { login: tok, expect: Expect::Keyword, ..st },
        Expect::Password => ParseState { password: tok, expect: Expect::Keyword, ..st },
        Expect::Skip => ParseState { expect: Expect::Keyword, ..st },
        Expect::Keyword => if tok == "machine"@ {
            ParseState { block: Block::Top, expect: Expect::MachineName, ..close_block(st) }
        } else if tok == "default"@ {
            ParseState {
                block: Block::Default,
                login: Seq::empty(),
                password: Seq::empty(),
                ..close_block(st)
            }
        } else if st.block is Top {
            st
        } else if tok == "login"@ {
            ParseState { expect: Expect::Login, ..st }
        } else if tok == "password"@ {
            ParseState { expect: Expect::Password, ..st }
        } else if tok == "account"@ || tok == "macdef"@ {
            ParseState { expect: Expect::Skip, ..st }
        } else {
            st
        },
    }
}

/// The parser's state after a sequence of tokens.
pub open spec fn run(toks: Seq<Seq<char>>) -> ParseState
    decreases toks.len(),
{
    if toks.len() == 0 {
        initial_state()
    } else {
        step(run(toks.drop_last()), toks.last())
    }
}

/// Whether a token is a comment (starts with `#`).
pub open spec fn is_comment(tok: Seq<char>) -> bool {
    tok.len() > 0 && tok[0] == '#'
}

/// The tokens that are not comments, in order.
pub open spec fn drop_comments(toks: Seq<Seq<char>>) -> Seq<Seq<char>>
    decreases toks.len(),
{
    if toks.len() == 0 {
        toks
    } else if is_comment(toks.last()) {
        drop_comments(toks.drop_last())
    } else {
        drop_comments(toks.drop_last()).push(toks.last())
    }
}

/// What a `.netrc` text parses to.
pub open spec fn parse_netrc(content: Seq<char>) -> NetrcView {
    let st = close_block(run(drop_comments(words(content))));
    NetrcView { entries: st.entries, default: st.default }
}

/// The last entry for a machine.
pub open spec fn lookup(entries: Seq<EntryView>, machine: Seq<char>) -> Option<EntryView>
    decreases entries.len(),
{
    if entries.len() == 0 {
        None
    } else if entries.last().machine == machine {
        Some(entries.last())
    } else {
        lookup(entries.drop_last(), machine)
    }
}

/// The Basic credentials of an entry.
pub open spec fn creds(e: EntryView) -> AuthView {
    AuthView { username: e.login, password: e.password, auth_type: AuthType::Basic }
}

/// The credentials for a machine: its own entry, else the default entry.
pub open spec fn credentials_for(n: NetrcView, machine: Seq<char>) -> Option<AuthView> {
    match lookup(n.entries, machine) {
        Some(e) => Some(creds(e)),
        None => match n.default {
            Some(d) => Some(creds(d)),
            None => None,
        },
    }
}

/// The view of an optional [`AuthConfig`].
pub open spec fn auth_opt_view(a: Option<AuthConfig>) -> Option<AuthView> {
    match a {
        Some(x) => Some(x@),
        None => None,
    }
}

/// The exec form of the current block.
enum ExecBlock {
    Top,
    Machine(Vec<char>),
    Default,
}

impl ExecBlock {
    spec fn view(&self) -> Block {
        match self {
            ExecBlock::Top => Block::Top,
            ExecBlock::Machine(n) => Block::Machine(n@),
            ExecBlock::Default => Block::Default,
        }
    }
}

impl Netrc {
    /// Parse .netrc content from string.
    ///
    /// Parsing never fails: unknown tokens are skipped, and blocks without
    /// both a login and a password are dropped.
    pub fn from_string(content: &str) -> (r: Result<Self, crate::error::Error>)
        ensures
            r matches Ok(n) && n@ == parse_netrc(content@),
    {
        let chars = chars_of(content);
        let all = split_words(&chars);
        let mut toks: Vec<Vec<char>> = Vec::new();
        let mut k: usize = 0;
        while k < all.len()
            invariant
                k <= all.len(),
                views(toks@) == drop_comments(views(all@).take(k as int)),
            decreases all.len() - k,
        {
            proof {
                assert(views(all@).take(k + 1).drop_last() =~= views(all@).take(k as int));
                assert(views(all@).take(k + 1).last() == all@[k as int]@);
            }
            let t = &all[k];
            let is_c = t.len() > 0 && t[0] == '#';
            if !is_c {
                let ghost old_t = views(toks@);
                toks.push(t.clone());
                assert(views(toks@) =~= old_t.push(all@[k as int]@));
            }
            k += 1;
        }
        assert(views(all@).take(all@.len() as int) =~= views(all@));
        let mut entries: Vec<NetrcEntry> = Vec::new();
        let mut default: Option<NetrcEntry> = None;
        let mut block = ExecBlock::Top;
        let mut expect = Expect::Keyword;
        let mut login: Vec<char> = Vec::new();
        let mut password: Vec<char> = Vec::new();
        let mut i: usize = 0;
        while i < toks.len()
            invariant
                i <= toks.len(),
                ({
                    let st = run(views(toks@).take(i as int));
                    &&& st.entries == entries@.map_values(|e: NetrcEntry| e@)
                    &&& st.default == (match default {
                        Some(e) => Some(e@),
                        None => None,
                    })
                    &&& st.block == block.view()
                    &&& st.expect == expect
                    &&& st.login == login@
                    &&& st.password == password@
                }),
            decreases toks.len() - i,
        {
            proof {
                assert(views(toks@).take(i + 1).drop_last() =~= views(toks@).take(i as int));
                assert(views(toks@).take(i + 1).last() == toks@[i as int]@);
            }
            let tok = &toks[i];
            match expect {
                Expect::MachineName => {
                    block = ExecBlock::Machine(tok.clone());
                    expect = Expect::Keyword;
                    login = Vec::new();
                    password = Vec::new();
                },
                Expect::Login => {
                    login = tok.clone();
                    expect = Expect::Keyword;
                },
                Expect::Password => {
                    password = tok.clone();
                    expect = Expect::Keyword;
                },
                Expect::Skip => {
                    expect = Expect::Keyword;
                },
                Expect::Keyword => {
                    if eq_lit(tok, "machine") {
                        Self::close(&mut entries, &mut default, &block, &login, &password);
                        block = ExecBlock::Top;
                        expect = Expect::MachineName;
                    } else if eq_lit(tok, "default") {
                        Self::close(&mut entries, &mut default, &block, &login, &password);
                        block = ExecBlock::Default;
                        login = Vec::new();
                        password = Vec::new();
                    } else if let ExecBlock::Top = block {
                    } else if eq_lit(tok, "login") {
                        expect = Expect::Login;
                    } else if eq_lit(tok, "password") {
                        expect = Expect::Password;
                    } else if eq_lit(tok, "account") || eq_lit(tok, "macdef") {
                        expect = Expect::Skip;
                    }
                },
            }
            i += 1;
        }
        assert(views(toks@).take(toks@.len() as int) =~= views(toks@));
        Self::close(&mut entries, &mut default, &block, &login, &password);
        Ok(Netrc { entries, default })
    }

    /// End the current block, as [`close_block`] states.
    fn close(
        entries: &mut Vec<NetrcEntry>,
        default: &mut Option<NetrcEntry>,
        block: &ExecBlock,
        login: &Vec<char>,
        password: &Vec<char>,
    )
        ensures
            ({
                let st = ParseState {
                    entries: old(entries)@.map_values(|e: NetrcEntry| e@),
                    default: match *old(default) {
                        Some(e) => Some(e@),
                        None => None,
                    },
                    block: block.view(),
                    expect: Expect::Keyword,
                    login: login@,
                    password: password@,
                };
                let st2 = close_block(st);
                &&& st2.entries == final(entries)@.map_values(|e: NetrcEntry| e@)
                &&& st2.default == (match *final(default) {
                    Some(e) => Some(e@),
                    None => None,
                })
            }),
    {
        if login.len() > 0 && password.len() > 0 {
            match block {
                ExecBlock::Machine(name) => {
                    let e = NetrcEntry {
                        machine: string_of(name.as_slice()),
                        login: string_of(login.as_slice()),
                        password: string_of(password.as_slice()),
                    };
                    let ghost old_e = entries@.map_values(|e: NetrcEntry| e@);
                    entries.push(e);
                    assert(entries@.map_values(|e: NetrcEntry| e@) =~= old_e.push(e@));
                },
                ExecBlock::Default => {
                    let d = chars_of("default");
                    *default = Some(
                        NetrcEntry {
                            machine: string_of(d.as_slice()),
                            login: string_of(login.as_slice()),
                            password: string_of(password.as_slice()),
                        },
                    );
                },
                ExecBlock::Top => {},
            }
        }
    }

    /// Get authentication credentials for a machine (hostname): its own
    /// entry, else the default entry.
    pub fn get(&self, machine: &str) -> (r: Option<AuthConfig>)
        ensures
            auth_opt_view(r) == credentials_for(self@, machine@),
    {
        match self.find(machine) {
            Some(idx) => {
                let e = &self.entries[idx];
                Some(
                    AuthConfig {
                        username: e.login.clone(),
                        password: e.password.clone(),
                        auth_type: AuthType::Basic,
                    },
                )
            },
            None => match &self.default {
                Some(e) => Some(
                    AuthConfig {
                        username: e.login.clone(),
                        password: e.password.clone(),
                        auth_type: AuthType::Basic,
                    },
                ),
                None => None,
            },
        }
    }

    /// Index of the last entry for a machine.
    fn find(&self, machine: &str) -> (r: Option<usize>)
        ensures
            match r {
                Some(i) => i < self.entries@.len() && lookup(self@.entries, machine@) == Some(
                    self.entries@[i as int]@,
                ),
                None => lookup(self@.entries, machine@) is None,
            },
    {
        let m = chars_of(machine);
        let mut i = self.entries.len();
        let ghost es = self@.entries;
        assert(es.take(i as int) =~= es);
        while i > 0
            invariant
                i <= self.entries@.len(),
                es == self@.entries,
                es.len() == self.entries@.len(),
                m@ == machine@,
                lookup(es, machine@) == lookup(es.take(i as int), machine@),
            decreases i,
        {
            assert(es[i - 1] == self.entries@[i - 1]@);
            assert(es.take(i as int).drop_last() =~= es.take(i - 1));
            assert(es.take(i as int).last() == self.entries@[i - 1]@);
            if eq_lit(m.as_slice(), self.entries[i - 1].machine.as_str()) {
                return Some(i - 1);
            }
            i -= 1;
        }
        None
    }

    /// Check if the `.netrc` has credentials for a machine (its own entry or
    /// a default entry).
    pub fn has_entry(&self, machine: &str) -> (r: bool)
        ensures
            r == (lookup(self@.entries, machine@) is Some || self@.default is Some),
    {
        self.find(machine).is_some() || self.default.is_some()
    }
}

/// A `.netrc` has an entry for a machine exactly when credentials are
/// found for it (its own entry or the default one).
pub proof fn lemma_has_entry_iff_credentials(n: NetrcView, machine: Seq<char>)
    ensures
        (lookup(n.entries, machine) is Some || n.default is Some) <==> credentials_for(n, machine) is Some,
{
}

/// The credentials of a machine with its own entry are that entry's login
/// and password, whatever the default says.
pub proof fn lemma_own_entry_wins(n: NetrcView, machine: Seq<char>)
    requires
        lookup(n.entries, machine) is Some,
    ensures
        credentials_for(n, machine) == Some(creds(lookup(n.entries, machine)->0)),
        lookup(n.entries, machine)->0.machine == machine,
    decreases n.entries.len(),
{
    if n.entries.last().machine != machine {
        lemma_own_entry_wins(NetrcView { entries: n.entries.drop_last(), default: n.default }, machine);
    }
}

/// A single token of a `.netrc` text: nonempty, without white space, and
/// not a comment.
pub open spec fn netrc_token(t: Seq<char>) -> bool {
    t.len() > 0 && no_ws(t) && !is_comment(t)
}

/// Tokens none of which is a comment are all kept.
proof fn lemma_no_comments(toks: Seq<Seq<char>>)
    requires
        forall|i: int| 0 <= i < toks.len() ==> !is_comment(#[trigger] toks[i]),
    ensures
        drop_comments(toks) == toks,
    decreases toks.len(),
{
    if toks.len() > 0 {
        assert forall|i: int| 0 <= i < toks.drop_last().len() implies !is_comment(#[trigger] toks.drop_last()[i]) by {
            assert(toks.drop_last()[i] == toks[i]);
        }
        lemma_no_comments(toks.drop_last());
        assert(toks[toks.len() - 1] == toks.last());
        assert(toks.drop_last().push(toks.last()) =~= toks);
    }
}

/// The text of a one-entry `.netrc`: `machine M login L password P`.
pub open spec fn entry_text(machine: Seq<char>, login: Seq<char>, password: Seq<char>) -> Seq<char> {
    join(seq!["machine"@, machine, "login"@, login, "password"@, password], seq![' '])
}

/// A `.netrc` text holding one entry, `machine M login L password P`,
/// parses to that entry alone, and gives its login and password as the
/// credentials for `M` (each value a single token, see [`netrc_token`]).
pub proof fn lemma_single_entry(machine: Seq<char>, login: Seq<char>, password: Seq<char>)
    requires
        netrc_token(machine),
        netrc_token(login),
        netrc_token(password),
    ensures
        parse_netrc(entry_text(machine, login, password)) == (NetrcView {
            entries: seq![EntryView { machine, login, password }],
            default: None,
        }),
        credentials_for(parse_netrc(entry_text(machine, login, password)), machine)
            == Some(AuthView { username: login, password, auth_type: AuthType::Basic }),
{
    reveal_strlit("machine");
    reveal_strlit("login");
    reveal_strlit("password");
    reveal_strlit("default");
    reveal_strlit("account");
    reveal_strlit("macdef");
    let kw_m = "machine"@;
    let kw_l = "login"@;
    let kw_p = "password"@;
    assert(kw_m =~= seq!['m', 'a', 'c', 'h', 'i', 'n', 'e']);
    assert(kw_l =~= seq!['l', 'o', 'g', 'i', 'n']);
    assert(kw_p =~= seq!['p', 'a', 's', 's', 'w', 'o', 'r', 'd']);
    assert("default"@.len() == 7 && "default"@[0] == 'd');
    assert("account"@.len() == 7);
    assert("macdef"@.len() == 6);
    assert(kw_l != kw_m && kw_l != "default"@);
    assert(kw_p != kw_m && kw_p != "default"@ && kw_p != kw_l);
    assert(netrc_token(kw_m) && netrc_token(kw_l) && netrc_token(kw_p)) by {
        assert(no_ws(kw_m));
        assert(no_ws(kw_l));
        assert(no_ws(kw_p));
    }
    let toks = seq![kw_m, machine, kw_l, login, kw_p, password];
    assert forall|i: int| 0 <= i < toks.len() implies (#[trigger] toks[i]).len() > 0 && no_ws(toks[i]) && !is_comment(toks[i]) by {
        assert(netrc_token(toks[i]));
    }
    lemma_words_join(toks);
    lemma_no_comments(toks);
    let s0 = initial_state();
    let s1 = step(s0, kw_m);
    let s2 = step(s1, machine);
    let s3 = step(s2, kw_l);
    let s4 = step(s3, login);
    let s5 = step(s4, kw_p);
    let s6 = step(s5, password);
    assert(close_block(s0) == s0);
    assert(s1.expect == Expect::MachineName && s1.block is Top);
    assert(s2.block == Block::Machine(machine) && s2.expect == Expect::Keyword);
    assert(s3.expect == Expect::Login && s3.block == Block::Machine(machine));
    assert(s4.login == login && s4.expect == Expect::Keyword);
    assert(s5.expect == Expect::Password && s5.login == login);
    assert(s6.password == password && s6.login == login && s6.block == Block::Machine(machine));
    assert(s6.entries.len() == 0 && s6.default is None);
    assert(toks.take(1).drop_last() =~= Seq::<Seq<char>>::empty());
    assert(run(Seq::<Seq<char>>::empty()) == s0);
    assert(toks.take(1).last() == kw_m);
    assert(run(toks.take(1)) == s1);
    assert(toks.take(2).drop_last() =~= toks.take(1));
    assert(toks.take(2).last() == machine);
    assert(run(toks.take(2)) == s2);
    assert(toks.take(3).drop_last() =~= toks.take(2));
    assert(toks.take(3).last() == kw_l);
    assert(run(toks.take(3)) == s3);
    assert(toks.take(4).drop_last() =~= toks.take(3));
    assert(toks.take(4).last() == login);
    assert(run(toks.take(4)) == s4);
    assert(toks.take(5).drop_last() =~= toks.take(4));
    assert(toks.take(5).last() == kw_p);
    assert(run(toks.take(5)) == s5);
    assert(toks.drop_last() =~= toks.take(5));
    assert(toks.last() == password);
    assert(run(toks) == s6);
    let fin = close_block(s6);
    assert(fin.entries =~= seq![EntryView { machine, login, password }]);
    assert(entry_text(machine, login, password) == join(toks, seq![' ']));
    let n = parse_netrc(entry_text(machine, login, password));
    assert(lookup(n.entries, machine) == Some(EntryView { machine, login, password }));
}

/// The text of a one-entry `.netrc` that gives the password first:
/// `machine M password P login L`.
pub open spec fn entry_text_password_first(
    machine: Seq<char>,
    login: Seq<char>,
    password: Seq<char>,
) -> Seq<char> {
    join(seq!["machine"@, machine, "password"@, password, "login"@, login], seq![' '])
}

/// Within a machine block, `login` and `password` are recorded whatever
/// their order: `machine M password P login L` parses to the one entry
/// `{M, L, P}`, and gives `L` and `P` as the credentials for `M` (each value
/// a single token, see [`netrc_token`]).
pub proof fn lemma_password_first_entry(machine: Seq<char>, login: Seq<char>, password: Seq<char>)
    requires
        netrc_token(machine),
        netrc_token(login),
        netrc_token(password),
    ensures
        parse_netrc(entry_text_password_first(machine, login, password)) == (NetrcView {
            entries: seq![EntryView { machine, login, password }],
            default: None,
        }),
        credentials_for(parse_netrc(entry_text_password_first(machine, login, password)), machine)
            == Some(AuthView { username: login, password, auth_type: AuthType::Basic }),
{
    reveal_strlit("machine");
    reveal_strlit("login");
    reveal_strlit("password");
    reveal_strlit("default");
    reveal_strlit("account");
    reveal_strlit("macdef");
    let kw_m = "machine"@;
    let kw_l = "login"@;
    let kw_p = "password"@;
    assert(kw_m =~= seq!['m', 'a', 'c', 'h', 'i', 'n', 'e']);
    assert(kw_l =~= seq!['l', 'o', 'g', 'i', 'n']);
    assert(kw_p =~= seq!['p', 'a', 's', 's', 'w', 'o', 'r', 'd']);
    assert("default"@.len() == 7 && "default"@[0] == 'd');
    assert("account"@.len() == 7);
    assert("macdef"@.len() == 6);
    assert(kw_l != kw_m && kw_l != "default"@);
    assert(kw_p != kw_m && kw_p != "default"@ && kw_p != kw_l);
    assert(netrc_token(kw_m) && netrc_token(kw_l) && netrc_token(kw_p)) by {
        assert(no_ws(kw_m));
        assert(no_ws(kw_l));
        assert(no_ws(kw_p));
    }
    let toks = seq![kw_m, machine, kw_p, password, kw_l, login];
    assert forall|i: int| 0 <= i < toks.len() implies (#[trigger] toks[i]).len() > 0 && no_ws(toks[i]) && !is_comment(toks[i]) by {
        assert(netrc_token(toks[i]));
    }
    lemma_words_join(toks);
    lemma_no_comments(toks);
    let s0 = initial_state();
    let s1 = step(s0, kw_m);
    let s2 = step(s1, machine);
    let s3 = step(s2, kw_p);
    let s4 = step(s3, password);
    let s5 = step(s4, kw_l);
    let s6 = step(s5, login);
    assert(close_block(s0) == s0);
    assert(s1.expect == Expect::MachineName && s1.block is Top);
    assert(s2.block == Block::Machine(machine) && s2.expect == Expect::Keyword);
    assert(s3.expect == Expect::Password && s3.block == Block::Machine(machine));
    assert(s4.password == password && s4.expect == Expect::Keyword);
    assert(s5.expect == Expect::Login && s5.password == password);
    assert(s6.password == password && s6.login == login && s6.block == Block::Machine(machine));
    assert(s6.entries.len() == 0 && s6.default is None);
    assert(toks.take(1).drop_last() =~= Seq::<Seq<char>>::empty());
    assert(run(Seq::<Seq<char>>::empty()) == s0);
    assert(toks.take(1).last() == kw_m);
    assert(run(toks.take(1)) == s1);
    assert(toks.take(2).drop_last() =~= toks.take(1));
    assert(toks.take(2).last() == machine);
    assert(run(toks.take(2)) == s2);
    assert(toks.take(3).drop_last() =~= toks.take(2));
    assert(toks.take(3).last() == kw_p);
    assert(run(toks.take(3)) == s3);
    assert(toks.take(4).drop_last() =~= toks.take(3));
    assert(toks.take(4).last() == password);
    assert(run(toks.take(4)) == s4);
    assert(toks.take(5).drop_last() =~= toks.take(4));
    assert(toks.take(5).last() == kw_l);
    assert(run(toks.take(5)) == s5);
    assert(toks.drop_last() =~= toks.take(5));
    assert(toks.last() == login);
    assert(run(toks) == s6);
    let fin = close_block(s6);
    assert(fin.entries =~= seq![EntryView { machine, login, password }]);
    assert(entry_text_password_first(machine, login, password) == join(toks, seq![' ']));
    let n = parse_netrc(entry_text_password_first(machine, login, password));
    assert(lookup(n.entries, machine) == Some(EntryView { machine, login, password }));
}

/// An entry with both a login and a password.
pub open spec fn complete_entry(e: EntryView) -> bool {
    e.login.len() > 0 && e.password.len() > 0
}

/// Every entry read so far, and the default entry, is complete.
spec fn state_complete(st: ParseState) -> bool {
    &&& forall|i: int| 0 <= i < st.entries.len() ==> complete_entry(#[trigger] st.entries[i])
    &&& st.default matches Some(d) ==> complete_entry(d)
}

/// Ending a block keeps the entries complete.
proof fn lemma_close_complete(st: ParseState)
    requires
        state_complete(st),
    ensures
        state_complete(close_block(st)),
{
    let r = close_block(st);
    assert forall|i: int| 0 <= i < r.entries.len() implies complete_entry(#[trigger] r.entries[i]) by {
        if i < st.entries.len() {
            assert(r.entries[i] == st.entries[i]);
        }
    }
}

/// The parser only ever records complete entries.
proof fn lemma_run_complete(toks: Seq<Seq<char>>)
    ensures
        state_complete(run(toks)),
    decreases toks.len(),
{
    if toks.len() > 0 {
        lemma_run_complete(toks.drop_last());
        lemma_close_complete(run(toks.drop_last()));
    }
}

/// The entry for a machine named by exactly one entry is that entry; a
/// machine named by none has no entry.
proof fn lemma_lookup_rule(entries: Seq<EntryView>, machine: Seq<char>)
    ensures
        forall|i: int| 0 <= i < entries.len() && (#[trigger] entries[i]).machine == machine
            && (forall|j: int| 0 <= j < entries.len() && entries[j].machine == machine ==> j == i)
            ==> lookup(entries, machine) == Some(entries[i]),
        (forall|i: int| 0 <= i < entries.len() ==> (#[trigger] entries[i]).machine != machine)
            ==> lookup(entries, machine) is None,
    decreases entries.len(),
{
    if entries.len() > 0 {
        let d = entries.drop_last();
        lemma_lookup_rule(d, machine);
        assert(entries[entries.len() - 1] == entries.last());
        assert forall|i: int| 0 <= i < entries.len() && (#[trigger] entries[i]).machine == machine
            && (forall|j: int| 0 <= j < entries.len() && entries[j].machine == machine ==> j == i)
            implies lookup(entries, machine) == Some(entries[i]) by {
            if i < entries.len() - 1 {
                assert(entries.last().machine != machine);
                assert(d[i] == entries[i]);
                assert forall|j: int| 0 <= j < d.len() && d[j].machine == machine implies j == i by {
                    assert(d[j] == entries[j]);
                }
            }
        }
        if forall|i: int| 0 <= i < entries.len() ==> (#[trigger] entries[i]).machine != machine {
            assert forall|i: int| 0 <= i < d.len() implies (#[trigger] d[i]).machine != machine by {
                assert(d[i] == entries[i]);
            }
        }
    }
}

/// The `.netrc` lookup rule: a parse records only blocks with both a login
/// and a password; a machine named by exactly one such block gets that
/// block's login and password; a machine named by none gets the default
/// block's, if there is one, else nothing. Machines are matched exactly.
pub proof fn lemma_netrc_get_rule(content: Seq<char>, machine: Seq<char>)
    ensures
        forall|i: int| 0 <= i < parse_netrc(content).entries.len()
            ==> complete_entry(#[trigger] parse_netrc(content).entries[i]),
        parse_netrc(content).default matches Some(d) ==> complete_entry(d),
        forall|i: int| 0 <= i < parse_netrc(content).entries.len()
            && (#[trigger] parse_netrc(content).entries[i]).machine == machine
            && (forall|j: int| 0 <= j < parse_netrc(content).entries.len()
                && parse_netrc(content).entries[j].machine == machine ==> j == i)
            ==> credentials_for(parse_netrc(content), machine) == Some(creds(parse_netrc(content).entries[i])),
        (forall|i: int| 0 <= i < parse_netrc(content).entries.len()
            ==> (#[trigger] parse_netrc(content).entries[i]).machine != machine)
            ==> credentials_for(parse_netrc(content), machine) == match parse_netrc(content).default {
                Some(d) => Some(creds(d)),
                None => None,
            },
{
    let toks = drop_comments(words(content));
    lemma_run_complete(toks);
    lemma_close_complete(run(toks));
    lemma_lookup_rule(parse_netrc(content).entries, machine);
}

} // verus!

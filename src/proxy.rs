//! Relay endpoints: the persisted list, validation of candidates, and random choice.

use vstd::prelude::*;
use crate::fetch::random_in;
use crate::text::{
    lemma_split_append, lemma_split_without_sep, chars_of, char_views, contains_chars, has_sub, slice_chars, split_chars, split_on,
    string_of,
};

verus! {

/// A relay endpoint.
#[derive(Clone, Debug, PartialEq, Eq)]
pub struct ProxyInfo {
    pub ip: String,
    pub port: String,
    pub scheme: String,
    pub last_verified: String,
    pub anonymous: String,
    pub position: String,
}

/// An endpoint as mathematical values.
pub struct ProxyView {
    pub ip: Seq<char>,
    pub port: Seq<char>,
    pub scheme: Seq<char>,
    pub last_verified: Seq<char>,
    pub anonymous: Seq<char>,
    pub position: Seq<char>,
}

impl View for ProxyInfo {
    type V = ProxyView;

    open spec fn view(&self) -> ProxyView {
        ProxyView {
            ip: self.ip@,
            port: self.port@,
            scheme: self.scheme@,
            last_verified: self.last_verified@,
            anonymous: self.anonymous@,
            position: self.position@,
        }
    }
}

/// An endpoint known only by address and port.
pub open spec fn address(ip: Seq<char>, port: Seq<char>) -> ProxyView {
    ProxyView {
        ip,
        port,
        scheme: Seq::empty(),
        last_verified: Seq::empty(),
        anonymous: Seq::empty(),
        position: Seq::empty(),
    }
}

pub open spec fn proxy_views(v: Seq<ProxyInfo>) -> Seq<ProxyView> {
    v.map_values(|p: ProxyInfo| p@)
}

impl ProxyInfo {
    /// An endpoint known only by address and port.
    pub fn from_address(ip: String, port: String) -> (r: ProxyInfo)
        ensures
            r@ == address(ip@, port@),
    {
        ProxyInfo {
            ip,
            port,
            scheme: String::new(),
            last_verified: String::new(),
            anonymous: String::new(),
            position: String::new(),
        }
    }

    /// A copy of the endpoint.
    pub fn duplicate(&self) -> (r: ProxyInfo)
        ensures
            r@ == self@,
    {
        ProxyInfo {
            ip: self.ip.clone(),
            port: self.port.clone(),
            scheme: self.scheme.clone(),
            last_verified: self.last_verified.clone(),
            anonymous: self.anonymous.clone(),
            position: self.position.clone(),
        }
    }
}

/// A line without the carriage return that may end it.
pub open spec fn without_cr(l: Seq<char>) -> Seq<char> {
    if l.len() > 0 && l.last() == '\r' {
        l.drop_last()
    } else {
        l
    }
}

/// The endpoint of one line of the list: exactly two fields separated by one space.
pub open spec fn proxy_of_line(l: Seq<char>) -> Option<ProxyView> {
    let b = split_on(without_cr(l), ' ');
    if b.len() == 2 {
        Some(address(b[0], b[1]))
    } else {
        None
    }
}

/// The endpoints of the well-formed lines, in order; the others are skipped.
pub open spec fn proxies_of_lines(lines: Seq<Seq<char>>) -> Seq<ProxyView>
    decreases lines.len(),
{
    if lines.len() == 0 {
        Seq::empty()
    } else {
        proxies_of_lines(lines.drop_last()) + match proxy_of_line(lines.last()) {
            Some(p) => seq![p],
            None => Seq::empty(),
        }
    }
}

/// The endpoints of a persisted list.
pub open spec fn proxies_of(content: Seq<char>) -> Seq<ProxyView> {
    proxies_of_lines(split_on(content, '\n'))
}

/// Reads the persisted list: one `<ip> <port>` record per line; malformed lines are
/// skipped.
pub fn load_proxies(content: &str) -> (r: Vec<ProxyInfo>)
    ensures
        proxy_views(r@) == proxies_of(content@),
{
    let lines = split_chars(&chars_of(content), '\n');
    let ghost all = char_views(lines@);
    let mut out: Vec<ProxyInfo> = Vec::new();
    let mut i: usize = 0;
    assert(proxy_views(out@) =~= proxies_of_lines(all.subrange(0, 0)));
    while i < lines.len()
        invariant
            i <= lines@.len(),
            all == char_views(lines@),
            proxy_views(out@) == proxies_of_lines(all.subrange(0, i as int)),
        decreases lines@.len() - i,
    {
        let ghost pre = all.subrange(0, i + 1);
        assert(pre.drop_last() =~= all.subrange(0, i as int));
        assert(pre.last() == lines@[i as int]@);
        let line = &lines[i];
        let trimmed_line = if line.len() > 0 && line[line.len() - 1] == '\r' {
            slice_chars(line, 0, line.len() - 1)
        } else {
            line.clone()
        };
        assert(trimmed_line@ =~= without_cr(line@));
        let blocks = split_chars(&trimmed_line, ' ');
        let ghost before = proxy_views(out@);
        if blocks.len() == 2 {
            assert(char_views(blocks@)[0] == blocks@[0]@);
            assert(char_views(blocks@)[1] == blocks@[1]@);
            out.push(ProxyInfo::from_address(string_of(&blocks[0]), string_of(&blocks[1])));
            assert(proxy_views(out@) =~= before + seq![out@.last()@]);
        } else {
            assert(char_views(blocks@).len() == blocks@.len());
            assert(before + Seq::<ProxyView>::empty() =~= before);
        }
        i += 1;
    }
    assert(all.subrange(0, lines@.len() as int) =~= all);
    out
}

/// The persisted form of a list: `<ip> <port>` and a newline for each endpoint.
pub open spec fn proxy_text(ps: Seq<ProxyView>) -> Seq<char>
    decreases ps.len(),
{
    if ps.len() == 0 {
        Seq::empty()
    } else {
        proxy_text(ps.drop_last()) + ps.last().ip + seq![' '] + ps.last().port + seq!['\n']
    }
}

/// Writes a list in its persisted form.
pub fn store_proxies(proxy_infos: &[ProxyInfo]) -> (r: String)
    ensures
        r@ == proxy_text(proxy_views(proxy_infos@)),
{
    let ghost all = proxy_views(proxy_infos@);
    let mut r = String::new();
    let mut i: usize = 0;
    proof {
        reveal_strlit(" ");
        reveal_strlit("\n");
    }
    assert(r@ =~= proxy_text(all.subrange(0, 0)));
    while i < proxy_infos.len()
        invariant
            i <= proxy_infos@.len(),
            all == proxy_views(proxy_infos@),
            r@ == proxy_text(all.subrange(0, i as int)),
            " "@ == seq![' '],
            "\n"@ == seq!['\n'],
        decreases proxy_infos@.len() - i,
    {
        let ghost pre = all.subrange(0, i + 1);
        assert(pre.drop_last() =~= all.subrange(0, i as int));
        assert(pre.last() == proxy_infos@[i as int]@);
        r.append(proxy_infos[i].ip.as_str());
        r.append(" ");
        r.append(proxy_infos[i].port.as_str());
        r.append("\n");
        i += 1;
    }
    assert(all.subrange(0, proxy_infos@.len() as int) =~= all);
    r
}

/// The text whose presence in a test response marks a block page.
pub open spec fn block_marker() -> Seq<char> {
    "sec.douban.com"@
}

/// Whether a candidate's test response shows a working relay: status exactly 200
/// and no block-page marker in the body.
pub fn is_valid_proxy_response(status: u16, body: &str) -> (r: bool)
    ensures
        r == (status == 200 && !has_sub(body@, block_marker())),
{
    if status != 200 {
        return false;
    }
    !contains_chars(&chars_of(body), &chars_of("sec.douban.com"))
}

/// Whether a candidate passes on its test outcome: a response (not a transport
/// error) that shows a working relay.
pub open spec fn passes(outcome: Option<(u16, Seq<char>)>) -> bool {
    match outcome {
        Some((status, body)) => status == 200 && !has_sub(body, block_marker()),
        None => false,
    }
}

pub open spec fn outcome_views(v: Seq<Option<(u16, String)>>) -> Seq<Option<(u16, Seq<char>)>> {
    v.map_values(
        |o: Option<(u16, String)>|
            match o {
                Some((s, b)) => Some((s, b@)),
                None => None,
            },
    )
}

/// The candidates that pass, in order.
pub open spec fn accepted(cands: Seq<ProxyView>, outcomes: Seq<Option<(u16, Seq<char>)>>) -> Seq<
    ProxyView,
>
    decreases cands.len(),
{
    if cands.len() == 0 || outcomes.len() == 0 {
        Seq::empty()
    } else {
        accepted(cands.drop_last(), outcomes.drop_last()) + if passes(outcomes.last()) {
            seq![cands.last()]
        } else {
            Seq::empty()
        }
    }
}

/// The candidates whose test outcome passes; `outcomes[i]` is the outcome of
/// `candidates[i]`, `None` for a transport error.
pub fn validate_proxies(candidates: &Vec<ProxyInfo>, outcomes: &Vec<Option<(u16, String)>>) -> (r:
    Vec<ProxyInfo>)
    requires
        candidates@.len() == outcomes@.len(),
    ensures
        proxy_views(r@) == accepted(proxy_views(candidates@), outcome_views(outcomes@)),
{
    let ghost cs = proxy_views(candidates@);
    let ghost os = outcome_views(outcomes@);
    let mut out: Vec<ProxyInfo> = Vec::new();
    let mut i: usize = 0;
    assert(proxy_views(out@) =~= accepted(cs.subrange(0, 0), os.subrange(0, 0)));
    while i < candidates.len()
        invariant
            i <= candidates@.len() == outcomes@.len(),
            cs == proxy_views(candidates@),
            os == outcome_views(outcomes@),
            proxy_views(out@) == accepted(cs.subrange(0, i as int), os.subrange(0, i as int)),
        decreases candidates@.len() - i,
    {
        assert(cs.subrange(0, i + 1).drop_last() =~= cs.subrange(0, i as int));
        assert(os.subrange(0, i + 1).drop_last() =~= os.subrange(0, i as int));
        assert(cs.subrange(0, i + 1).last() == candidates@[i as int]@);
        assert(os.subrange(0, i + 1).last() == os[i as int]);
        let ghost before = proxy_views(out@);
        let ok = match &outcomes[i] {
            Some((status, body)) => is_valid_proxy_response(*status, body.as_str()),
            None => false,
        };
        if ok {
            out.push(candidates[i].duplicate());
            assert(proxy_views(out@) =~= before + seq![candidates@[i as int]@]);
        } else {
            assert(before + Seq::<ProxyView>::empty() =~= before);
        }
        i += 1;
    }
    assert(cs.subrange(0, candidates@.len() as int) =~= cs);
    assert(os.subrange(0, candidates@.len() as int) =~= os);
    out
}

/// The persisted list of the candidates that pass their test.
pub fn get_and_store_valid_proxies(
    candidates: &Vec<ProxyInfo>,
    outcomes: &Vec<Option<(u16, String)>>,
) -> (r: String)
    requires
        candidates@.len() == outcomes@.len(),
    ensures
        r@ == proxy_text(accepted(proxy_views(candidates@), outcome_views(outcomes@))),
{
    let valid = validate_proxies(candidates, outcomes);
    store_proxies(valid.as_slice())
}

/// No endpoint is loaded.
#[derive(Debug, PartialEq, Eq)]
pub struct EmptyPool;

/// The loaded endpoints, from which each fetch draws one at random.
pub struct ProxyPool {
    proxies: Vec<ProxyInfo>,
}

impl View for ProxyPool {
    type V = Seq<ProxyView>;

    closed spec fn view(&self) -> Seq<ProxyView> {
        proxy_views(self.proxies@)
    }
}

impl ProxyPool {
    /// A pool holding the given endpoints.
    pub fn new(proxies: Vec<ProxyInfo>) -> (r: ProxyPool)
        ensures
            r@ == proxy_views(proxies@),
    {
        ProxyPool { proxies }
    }

    /// A pool loaded from the persisted list.
    pub fn init(content: &str) -> (r: ProxyPool)
        ensures
            r@ == proxies_of(content@),
    {
        ProxyPool { proxies: load_proxies(content) }
    }

    pub fn len(&self) -> (r: usize)
        ensures
            r == self@.len(),
    {
        self.proxies.len()
    }

    /// An endpoint drawn uniformly at random; fails exactly when the pool is empty.
    pub fn get_proxy_to_use(&self) -> (r: Result<ProxyInfo, EmptyPool>)
        ensures
            r is Err <==> self@.len() == 0,
            r matches Ok(p) ==> self@.contains(p@),
    {
        let n = self.proxies.len();
        if n == 0 {
            return Err(EmptyPool);
        }
        let k = random_in(0, n as u64) as usize;
        let p = self.proxies[k].duplicate();
        assert(self@[k as int] == p@);
        Ok(p)
    }
}


/// The line that the persisted form gives an endpoint.
pub open spec fn proxy_line(p: ProxyView) -> Seq<char> {
    p.ip + seq![' '] + p.port
}

/// An address and a port that the persisted form can hold.
pub open spec fn writable(p: ProxyView) -> bool {
    &&& !p.ip.contains(' ') && !p.ip.contains('\n')
    &&& !p.port.contains(' ') && !p.port.contains('\n') && !p.port.contains('\r')
}

proof fn lemma_text_lines(ps: Seq<ProxyView>)
    requires
        forall|i: int| 0 <= i < ps.len() ==> writable(#[trigger] ps[i]),
    ensures
        split_on(proxy_text(ps), '\n') == ps.map_values(|p: ProxyView| proxy_line(p)).push(
            Seq::empty(),
        ),
    decreases ps.len(),
{
    if ps.len() == 0 {
        assert(proxy_text(ps) =~= Seq::<char>::empty());
        assert(ps.map_values(|p: ProxyView| proxy_line(p)).push(Seq::empty()) =~= seq![
            Seq::<char>::empty(),
        ]);
    } else {
        let d = ps.drop_last();
        assert forall|i: int| 0 <= i < d.len() implies writable(#[trigger] d[i]) by {
            assert(d[i] == ps[i]);
        }
        lemma_text_lines(d);
        let p = ps.last();
        assert(writable(ps[ps.len() - 1]));
        let l = proxy_line(p);
        assert(!l.contains('\n')) by {
            if l.contains('\n') {
                let i = choose|i: int| 0 <= i < l.len() && l[i] == '\n';
                if i < p.ip.len() {
                    assert(p.ip[i] == '\n');
                } else if i > p.ip.len() {
                    assert(p.port[i - p.ip.len() - 1] == '\n');
                }
            }
        }
        let t = proxy_text(d);
        lemma_split_append(t, l, '\n');
        let whole = t + l + seq!['\n'];
        assert(proxy_text(ps) =~= whole);
        assert(whole.drop_last() =~= t + l);
        assert(whole.last() == '\n');
        assert(ps.map_values(|p: ProxyView| proxy_line(p)) =~= d.map_values(
            |p: ProxyView| proxy_line(p),
        ).push(l));
        assert(split_on(t, '\n').drop_last() =~= d.map_values(|p: ProxyView| proxy_line(p)));
        assert(Seq::<char>::empty() + l =~= l);
    }
}

proof fn lemma_line_reads_back(p: ProxyView)
    requires
        writable(p),
    ensures
        proxy_of_line(proxy_line(p)) == Some(address(p.ip, p.port)),
{
    let l = proxy_line(p);
    if p.port.len() > 0 {
        assert(l.last() == p.port.last());
        assert(p.port.last() != '\r') by {
            assert(p.port[p.port.len() - 1] == p.port.last());
        }
    } else {
        assert(l.last() == ' ');
    }
    assert(without_cr(l) == l);
    lemma_split_without_sep(p.ip, ' ');
    let a = p.ip + seq![' '];
    assert(a.drop_last() =~= p.ip);
    assert(split_on(a, ' ') == seq![p.ip].push(Seq::empty()));
    lemma_split_append(a, p.port, ' ');
    assert(Seq::<char>::empty() + p.port =~= p.port);
    assert(split_on(l, ' ') =~= seq![p.ip, p.port]);
}

proof fn lemma_lines_read_back(ps: Seq<ProxyView>)
    requires
        forall|i: int| 0 <= i < ps.len() ==> writable(#[trigger] ps[i]),
    ensures
        proxies_of_lines(ps.map_values(|p: ProxyView| proxy_line(p))) == ps.map_values(
            |p: ProxyView| address(p.ip, p.port),
        ),
    decreases ps.len(),
{
    if ps.len() > 0 {
        let d = ps.drop_last();
        assert forall|i: int| 0 <= i < d.len() implies writable(#[trigger] d[i]) by {
            assert(d[i] == ps[i]);
        }
        lemma_lines_read_back(d);
        assert(writable(ps[ps.len() - 1]));
        lemma_line_reads_back(ps.last());
        let ls = ps.map_values(|p: ProxyView| proxy_line(p));
        assert(ls.drop_last() =~= d.map_values(|p: ProxyView| proxy_line(p)));
        assert(ls.last() == proxy_line(ps.last()));
        assert(ps.map_values(|p: ProxyView| address(p.ip, p.port)) =~= d.map_values(
            |p: ProxyView| address(p.ip, p.port),
        ).push(address(ps.last().ip, ps.last().port)));
    } else {
        assert(ps.map_values(|p: ProxyView| address(p.ip, p.port)) =~= Seq::<ProxyView>::empty());
    }
}

/// Writing a list and reading it back gives the endpoints' addresses and ports, in
/// order, where no address or port holds a space or a newline and no port a
/// carriage return.
pub proof fn lemma_proxy_list_round_trip(ps: Seq<ProxyView>)
    requires
        forall|i: int| 0 <= i < ps.len() ==> writable(#[trigger] ps[i]),
    ensures
        proxies_of(proxy_text(ps)) == ps.map_values(|p: ProxyView| address(p.ip, p.port)),
{
    lemma_text_lines(ps);
    lemma_lines_read_back(ps);
    let ls = ps.map_values(|p: ProxyView| proxy_line(p));
    let all = ls.push(Seq::empty());
    assert(all.drop_last() =~= ls);
    assert(split_on(Seq::<char>::empty(), ' ').len() == 1);
    assert(proxy_of_line(all.last()) is None);
    assert(proxies_of_lines(all) =~= proxies_of_lines(ls));
}

} // verus!

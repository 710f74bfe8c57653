use crate::errors::OpError;
use crate::platform::Platform;
use crate::text;
use vstd::prelude::*;

verus! {

/// One row of the local name-resolution table: an address, the hostnames
/// mapped to it, and an optional trailing comment (stored without its `#`
/// marker).
#[derive(Debug, Clone, PartialEq, Eq)]
pub struct HostEntry {
    pub ip: String,
    pub hostnames: Vec<String>,
    pub comment: Option<String>,
}

/// The mathematical content of one table row.
#[verifier::ext_equal]
pub struct EntryModel {
    pub ip: Seq<char>,
    pub hostnames: Seq<Seq<char>>,
    pub comment: Option<Seq<char>>,
}

impl View for HostEntry {
    type V = EntryModel;

    open spec fn view(&self) -> EntryModel {
        EntryModel {
            ip: self.ip@,
            hostnames: self.hostnames.deep_view(),
            comment: match self.comment {
                Option::Some(c) => Option::Some(c@),
                Option::None => Option::None,
            },
        }
    }
}

impl DeepView for HostEntry {
    type V = EntryModel;

    open spec fn deep_view(&self) -> EntryModel {
        self.view()
    }
}

/// The parsed local name-resolution table. The two loopback rows are not
/// kept here: they are regenerated on every save.
pub struct HostsFile {
    entries: Vec<HostEntry>,
}

impl View for HostsFile {
    type V = Seq<EntryModel>;

    closed spec fn view(&self) -> Seq<EntryModel> {
        self.entries.deep_view()
    }
}

// ===========================================================================
// What parsing a hosts file means
// ===========================================================================

/// Addresses of the loopback rows that saving regenerates.
pub open spec fn is_loopback_ip(ip: Seq<char>) -> bool {
    ip == "127.0.0.1"@ || ip == "::1"@
}

/// A row needs an address token and at least one hostname; loopback rows
/// are dropped in favour of the regenerated ones.
pub open spec fn entry_from(toks: Seq<Seq<char>>, comment: Option<Seq<char>>) -> Option<
    EntryModel,
> {
    if toks.len() < 2 {
        Option::None
    } else if is_loopback_ip(toks[0]) {
        Option::None
    } else {
        Option::Some(EntryModel { ip: toks[0], hostnames: toks.drop_first(), comment })
    }
}

/// How one line is read: the tokens before a token-initial `#` are the
/// address and hostnames; the remainder after the marker, trimmed, is the
/// comment. Blank and comment-only lines yield nothing.
pub open spec fn parse_line(line: Seq<char>) -> Option<EntryModel> {
    match text::comment_start(line) {
        Option::Some(p) => entry_from(
            text::tokens(line.take(p)),
            Option::Some(text::trim_spec(line.skip(p + 1))),
        ),
        Option::None => entry_from(text::tokens(line), Option::None),
    }
}

pub open spec fn parse_lines(lines: Seq<Seq<char>>) -> Seq<EntryModel>
    decreases lines.len(),
{
    if lines.len() == 0 {
        Seq::<EntryModel>::empty()
    } else {
        match parse_line(lines[0]) {
            Option::Some(e) => seq![e] + parse_lines(lines.drop_first()),
            Option::None => parse_lines(lines.drop_first()),
        }
    }
}

/// The custom entries held in a hosts file's text.
pub open spec fn parse_hosts(content: Seq<char>) -> Seq<EntryModel> {
    parse_lines(text::split_lines(content))
}

// ===========================================================================
// Parsing
// ===========================================================================

fn parse_host_line(line: &str) -> (r: Option<HostEntry>)
    ensures
        match r {
            Some(e) => parse_line(line@) == Option::Some(e@),
            None => parse_line(line@) is None,
        },
{
    let n = line.unicode_len();
    let cs = text::find_comment_start(line);
    let toks: Vec<String>;
    let comment: Option<String>;
    match cs {
        Some(p) => {
            let before = line.substring_char(0, p);
            let after = line.substring_char(p + 1, n);
            proof {
                assert(before@ =~= line@.take(p as int));
                assert(after@ =~= line@.skip(p as int + 1));
            }
            toks = text::line_tokens(before);
            comment = Some(text::trim_str(after));
        },
        None => {
            toks = text::line_tokens(line);
            comment = None;
        },
    }
    if toks.len() < 2 {
        return None;
    }
    let ip = toks[0].clone();
    if text::str_eq(ip.as_str(), "127.0.0.1") || text::str_eq(ip.as_str(), "::1") {
        return None;
    }
    let mut hostnames: Vec<String> = Vec::new();
    let mut i: usize = 1;
    while i < toks.len()
        invariant
            1 <= i <= toks@.len(),
            hostnames.deep_view() == toks.deep_view().subrange(1, i as int),
        decreases toks@.len() - i,
    {
        let ghost pre = hostnames.deep_view();
        hostnames.push(toks[i].clone());
        proof {
            assert(hostnames.deep_view() =~= pre.push(toks.deep_view()[i as int]));
            assert(hostnames.deep_view() =~= toks.deep_view().subrange(1, i as int + 1));
        }
        i += 1;
    }
    let entry = HostEntry { ip, hostnames, comment };
    proof {
        assert(toks.deep_view().subrange(1, toks.deep_view().len() as int) =~= toks.deep_view()
            .drop_first());
        assert(entry@ =~= entry_from(
            toks.deep_view(),
            match comment {
                Option::Some(c) => Option::Some(c@),
                Option::None => Option::None,
            },
        ).unwrap());
    }
    Some(entry)
}

impl HostsFile {
    /// Parses the custom entries out of the hosts file's text.
    pub fn new(content: &str) -> (r: HostsFile)
        ensures
            r@ == parse_hosts(content@),
    {
        let lines = text::split_into_lines(content);
        let mut entries: Vec<HostEntry> = Vec::new();
        let mut i: usize = 0;
        let ghost all = lines.deep_view();
        proof {
            assert(all.skip(0) =~= all);
            assert(entries.deep_view() + parse_lines(all) =~= parse_lines(all));
        }
        while i < lines.len()
            invariant
                0 <= i <= lines@.len(),
                all == lines.deep_view(),
                parse_hosts(content@) == entries.deep_view() + parse_lines(all.skip(i as int)),
            decreases lines@.len() - i,
        {
            proof {
                assert(all.skip(i as int)[0] == all[i as int]);
                assert(all.skip(i as int).drop_first() =~= all.skip(i as int + 1));
                assert(all[i as int] == lines@[i as int]@);
            }
            match parse_host_line(lines[i].as_str()) {
                Some(e) => {
                    let ghost pre = entries.deep_view();
                    entries.push(e);
                    proof {
                        assert(entries.deep_view() =~= pre.push(e@));
                        assert(pre + (seq![e@] + parse_lines(all.skip(i as int + 1))) =~= pre.push(
                            e@,
                        ) + parse_lines(all.skip(i as int + 1)));
                    }
                },
                None => {},
            }
            i += 1;
        }
        proof {
            assert(all.skip(lines@.len() as int) =~= Seq::<Seq<char>>::empty());
            assert(entries.deep_view() + Seq::<EntryModel>::empty() =~= entries.deep_view());
        }
        HostsFile { entries }
    }

    /// The parsed entries, for display and inspection.
    pub fn entries(&self) -> (r: &Vec<HostEntry>)
        ensures
            r.deep_view() == self@,
    {
        &self.entries
    }
}

// ===========================================================================
// Membership and insertion
// ===========================================================================

/// Whether any row of the table already lists `h` among its hostnames.
pub open spec fn table_has_hostname(entries: Seq<EntryModel>, h: Seq<char>) -> bool {
    exists|i: int| 0 <= i < entries.len() && (#[trigger] entries[i]).hostnames.contains(h)
}

/// The views of a list of hostname arguments.
pub open spec fn names_of(hs: Seq<&str>) -> Seq<Seq<char>> {
    hs.map_values(|x: &str| x@)
}

impl HostsFile {
    /// Whether `hostname` already appears in any entry.
    pub fn contains_hostname(&self, hostname: &str) -> (r: bool)
        ensures
            r == table_has_hostname(self@, hostname@),
    {
        let mut i: usize = 0;
        while i < self.entries.len()
            invariant
                0 <= i <= self.entries@.len(),
                forall|k: int|
                    0 <= k < i ==> !(#[trigger] self@[k]).hostnames.contains(hostname@),
            decreases self.entries@.len() - i,
        {
            let entry = &self.entries[i];
            let mut j: usize = 0;
            while j < entry.hostnames.len()
                invariant
                    0 <= j <= entry.hostnames@.len(),
                    entry@ == self@[i as int],
                    0 <= i < self.entries@.len(),
                    forall|l: int| 0 <= l < j ==> #[trigger] entry@.hostnames[l] != hostname@,
                decreases entry.hostnames@.len() - j,
            {
                if text::str_eq(entry.hostnames[j].as_str(), hostname) {
                    proof {
                        assert(entry@.hostnames[j as int] == hostname@);
                        assert(self@[i as int].hostnames.contains(hostname@));
                    }
                    return true;
                }
                j += 1;
            }
            proof {
                let em = self@[i as int];
                assert forall|l: int|
                    0 <= l < em.hostnames.len() implies #[trigger] em.hostnames[l]
                    != hostname@ by {
                    assert(entry@.hostnames[l] != hostname@);
                }
                assert(!em.hostnames.contains(hostname@));
            }
            i += 1;
        }
        false
    }

    /// Adds a row for `ip` under the given hostnames, rejecting any hostname
    /// that some entry already lists, and leaving the table unchanged in
    /// that case.
    pub fn add_entry(&mut self, ip: &str, hostnames: &[&str], comment: Option<&str>) -> (r:
        Result<(), OpError>)
        ensures
            match r {
                Ok(()) => {
                    &&& forall|k: int|
                        0 <= k < hostnames@.len() ==> !table_has_hostname(
                            old(self)@,
                            (#[trigger] hostnames@[k])@,
                        )
                    &&& final(self)@ == old(self)@.push(
                        EntryModel {
                            ip: ip@,
                            hostnames: names_of(hostnames@),
                            comment: match comment {
                                Option::Some(c) => Option::Some(c@),
                                Option::None => Option::None,
                            },
                        },
                    )
                },
                Err(e) => {
                    &&& final(self)@ == old(self)@
                    &&& exists|k: int|
                        {
                            &&& 0 <= k < hostnames@.len()
                            &&& table_has_hostname(old(self)@, (#[trigger] hostnames@[k])@)
                            &&& forall|k2: int|
                                0 <= k2 < k ==> !table_has_hostname(
                                    old(self)@,
                                    (#[trigger] hostnames@[k2])@,
                                )
                            &&& e matches OpError::DuplicateHostname { hostname } && hostname@
                                == hostnames@[k]@
                        }
                },
            },
    {
        let mut names: Vec<String> = Vec::new();
        let mut k: usize = 0;
        while k < hostnames.len()
            invariant
                0 <= k <= hostnames@.len(),
                self == old(self),
                names.deep_view() == names_of(hostnames@.subrange(0, k as int)),
                forall|k2: int|
                    0 <= k2 < k ==> !table_has_hostname(old(self)@, (#[trigger] hostnames@[k2])@),
            decreases hostnames@.len() - k,
        {
            let h = hostnames[k];
            if self.contains_hostname(h) {
                return Err(OpError::DuplicateHostname { hostname: String::from_str(h) });
            }
            let ghost pre = names.deep_view();
            names.push(String::from_str(h));
            proof {
                assert(names.deep_view() =~= pre.push(h@));
                assert(names_of(hostnames@.subrange(0, k as int + 1)) =~= names_of(
                    hostnames@.subrange(0, k as int),
                ).push(h@));
            }
            k += 1;
        }
        proof {
            assert(hostnames@.subrange(0, hostnames@.len() as int) =~= hostnames@);
        }
        let cmt: Option<String> = match comment {
            Some(c) => Some(String::from_str(c)),
            None => None,
        };
        let entry = HostEntry { ip: String::from_str(ip), hostnames: names, comment: cmt };
        let ghost pre = self.entries.deep_view();
        self.entries.push(entry);
        proof {
            assert(self.entries.deep_view() =~= pre.push(entry@));
            assert(entry@ =~= EntryModel {
                ip: ip@,
                hostnames: names_of(hostnames@),
                comment: match comment {
                    Option::Some(c) => Option::Some(c@),
                    Option::None => Option::None,
                },
            });
        }
        Ok(())
    }
}

// ===========================================================================
// What saving a hosts file means
// ===========================================================================

/// The serialized form of one row: address, four spaces, the hostnames
/// joined by single spaces, and `  # ` before any comment.
pub open spec fn entry_line(e: EntryModel) -> Seq<char> {
    let base = e.ip + "    "@ + text::join_with(e.hostnames, text::sp1());
    match e.comment {
        Option::Some(c) => base + "  # "@ + c,
        Option::None => base,
    }
}

pub open spec fn entry_block(entries: Seq<EntryModel>) -> Seq<char>
    decreases entries.len(),
{
    if entries.len() == 0 {
        Seq::<char>::empty()
    } else {
        entry_line(entries[0]) + seq!['\n'] + entry_block(entries.drop_first())
    }
}

pub open spec fn loopback_line1() -> Seq<char> {
    "127.0.0.1       localhost"@
}

pub open spec fn loopback_line2(p: Platform) -> Seq<char> {
    if p == Platform::Windows {
        "::1             localhost"@
    } else {
        "::1             localhost ip6-localhost ip6-loopback"@
    }
}

/// The two regenerated loopback rows and a separating blank line.
pub open spec fn header_text(p: Platform) -> Seq<char> {
    loopback_line1() + seq!['\n'] + loopback_line2(p) + seq!['\n'] + seq!['\n']
}

/// The full serialized table.
pub open spec fn hosts_text(entries: Seq<EntryModel>, p: Platform) -> Seq<char> {
    header_text(p) + entry_block(entries)
}

proof fn lemma_entry_block_push(entries: Seq<EntryModel>, e: EntryModel)
    ensures
        entry_block(entries.push(e)) == entry_block(entries) + entry_line(e) + seq!['\n'],
    decreases entries.len(),
{
    if entries.len() == 0 {
        assert(entries.push(e).drop_first() =~= Seq::<EntryModel>::empty());
        assert(entries.push(e)[0] == e);
        assert(entry_block(Seq::<EntryModel>::empty()) == Seq::<char>::empty());
        assert(entry_block(entries.push(e)) == entry_line(e) + seq!['\n'] + Seq::<char>::empty());
        assert(entry_line(e) + seq!['\n'] + Seq::<char>::empty() =~= Seq::<char>::empty()
            + entry_line(e) + seq!['\n']);
    } else {
        assert(entries.push(e).drop_first() =~= entries.drop_first().push(e));
        lemma_entry_block_push(entries.drop_first(), e);
        assert(entries.push(e)[0] == entries[0]);
        assert(entry_line(entries[0]) + seq!['\n'] + (entry_block(entries.drop_first())
            + entry_line(e) + seq!['\n']) =~= (entry_line(entries[0]) + seq!['\n'] + entry_block(
            entries.drop_first(),
        )) + entry_line(e) + seq!['\n']);
    }
}

/// Appends the hostnames joined by single spaces.
fn append_joined(out: &mut String, parts: &Vec<String>)
    ensures
        final(out)@ == old(out)@ + text::join_with(parts.deep_view(), text::sp1()),
{
    let ghost deep = parts.deep_view();
    let mut j: usize = 0;
    proof {
        reveal_strlit(" ");
        assert(" "@ =~= text::sp1());
        assert(deep.take(0) =~= Seq::<Seq<char>>::empty());
        assert(old(out)@ + text::join_with(deep.take(0), text::sp1()) =~= old(out)@);
    }
    while j < parts.len()
        invariant
            0 <= j <= parts@.len(),
            deep == parts.deep_view(),
            " "@ == text::sp1(),
            out@ == old(out)@ + text::join_with(deep.take(j as int), text::sp1()),
        decreases parts@.len() - j,
    {
        if j > 0 {
            out.append(" ");
        }
        out.append(parts[j].as_str());
        proof {
            text::lemma_join_with_snoc(deep.take(j as int), text::sp1(), deep[j as int]);
            assert(deep.take(j as int).push(deep[j as int]) =~= deep.take(j as int + 1));
            if j == 0 {
                assert(deep.take(0).len() == 0);
                assert(out@ =~= old(out)@ + text::join_with(deep.take(1), text::sp1()));
            } else {
                assert(out@ =~= old(out)@ + text::join_with(deep.take(j as int + 1), text::sp1()));
            }
        }
        j += 1;
    }
    proof {
        assert(deep.take(parts@.len() as int) =~= deep);
    }
}

impl HostsFile {
    /// Serializes the table: the regenerated loopback rows, a blank line,
    /// then one line per custom entry.
    pub fn render_content(&self, p: Platform) -> (r: String)
        ensures
            r@ == hosts_text(self@, p),
    {
        let mut out = String::new();
        out.append("127.0.0.1       localhost");
        out.append("\n");
        if crate::platform::is_windows(p) {
            out.append("::1             localhost");
        } else {
            out.append("::1             localhost ip6-localhost ip6-loopback");
        }
        out.append("\n");
        out.append("\n");
        proof {
            reveal_strlit("\n");
            assert("\n"@ =~= seq!['\n']);
            assert(out@ =~= header_text(p));
            assert(self@.take(0) =~= Seq::<EntryModel>::empty());
            assert(out@ + entry_block(self@.take(0)) =~= out@);
        }
        let ghost hdr = out@;
        let mut i: usize = 0;
        while i < self.entries.len()
            invariant
                0 <= i <= self.entries@.len(),
                hdr == header_text(p),
                self@ == self.entries.deep_view(),
                out@ == hdr + entry_block(self@.take(i as int)),
            decreases self.entries@.len() - i,
        {
            let ghost pre = out@;
            let entry = &self.entries[i];
            out.append(entry.ip.as_str());
            out.append("    ");
            append_joined(&mut out, &entry.hostnames);
            match &entry.comment {
                Some(c) => {
                    out.append("  # ");
                    out.append(c.as_str());
                },
                None => {},
            }
            out.append("\n");
            proof {
                reveal_strlit("\n");
                assert("\n"@ =~= seq!['\n']);
                assert(entry@ == self@[i as int]);
                assert(out@ =~= pre + entry_line(self@[i as int]) + seq!['\n']);
                lemma_entry_block_push(self@.take(i as int), self@[i as int]);
                assert(self@.take(i as int).push(self@[i as int]) =~= self@.take(i as int + 1));
                assert(out@ =~= hdr + entry_block(self@.take(i as int + 1)));
            }
            i += 1;
        }
        proof {
            assert(self@.take(self.entries@.len() as int) =~= self@);
        }
        out
    }

    /// The platform-specific location of the hosts file.
    pub fn get_hosts_file_path(p: Platform) -> (r: String)
        ensures
            p == Platform::Windows ==> r@ == "C:\\Windows\\System32\\drivers\\etc\\hosts"@,
            p != Platform::Windows ==> r@ == "/etc/hosts"@,
    {
        if crate::platform::is_windows(p) {
            String::from_str("C:\\Windows\\System32\\drivers\\etc\\hosts")
        } else {
            String::from_str("/etc/hosts")
        }
    }
}

// ===========================================================================
// Privilege-elevation fallback commands
// ===========================================================================

/// The elevation helper to use on the Unix family.
pub fn unix_elevation_program(pkexec_available: bool) -> (r: &'static str)
    ensures
        pkexec_available ==> r@ == "pkexec"@,
        !pkexec_available ==> r@ == "sudo"@,
{
    if pkexec_available {
        "pkexec"
    } else {
        "sudo"
    }
}

/// Arguments handed to the Unix elevation helper: copy the temporary file
/// over the canonical path.
pub fn unix_copy_args(temp_path: &str, dest_path: &str) -> (r: Vec<String>)
    ensures
        r.deep_view() == seq!["cp"@, temp_path@, dest_path@],
{
    let mut v: Vec<String> = Vec::new();
    v.push(String::from_str("cp"));
    v.push(String::from_str(temp_path));
    v.push(String::from_str(dest_path));
    proof {
        assert(v.deep_view() =~= seq!["cp"@, temp_path@, dest_path@]);
    }
    v
}

pub open spec fn windows_elevation_text(temp_path: Seq<char>, dest_path: Seq<char>) -> Seq<
    char,
> {
    "Start-Process powershell -Verb RunAs -ArgumentList '-Command Copy-Item -Path \""@ + temp_path
        + "\" -Destination \""@ + dest_path + "\" -Force'"@
}

/// Arguments handed to an unelevated shell on the desktop OS family: start
/// an elevated shell that copies the temporary file over the canonical path.
pub fn windows_elevation_args(temp_path: &str, dest_path: &str) -> (r: Vec<String>)
    ensures
        r.deep_view() == seq![
            "-Command"@,
            windows_elevation_text(temp_path@, dest_path@),
        ],
{
    let mut cmd = String::new();
    cmd.append("Start-Process powershell -Verb RunAs -ArgumentList '-Command Copy-Item -Path \"");
    cmd.append(temp_path);
    cmd.append("\" -Destination \"");
    cmd.append(dest_path);
    cmd.append("\" -Force'");
    let mut v: Vec<String> = Vec::new();
    v.push(String::from_str("-Command"));
    v.push(cmd);
    proof {
        assert(v.deep_view() =~= seq![
            "-Command"@,
            windows_elevation_text(temp_path@, dest_path@),
        ]);
    }
    v
}

// ===========================================================================
// The save/load round trip
// ===========================================================================

/// A field value that survives the line format unchanged: non-empty, free
/// of whitespace and newlines, and not starting with the comment marker.
pub open spec fn wf_token(t: Seq<char>) -> bool {
    &&& t.len() > 0
    &&& t[0] != '#'
    &&& forall|j: int|
        0 <= j < t.len() ==> !text::is_space_char(#[trigger] t[j]) && t[j] != '\n'
}

/// A comment that survives the line format unchanged: single-line and
/// already trimmed.
pub open spec fn wf_comment(c: Seq<char>) -> bool {
    &&& forall|j: int| 0 <= j < c.len() ==> #[trigger] c[j] != '\n'
    &&& c.len() > 0 ==> !text::is_space_char(c[0]) && !text::is_space_char(c.last())
}

/// An entry whose serialized line parses back to exactly itself.
pub open spec fn wf_entry(e: EntryModel) -> bool {
    &&& wf_token(e.ip)
    &&& !is_loopback_ip(e.ip)
    &&& e.hostnames.len() > 0
    &&& forall|i: int| 0 <= i < e.hostnames.len() ==> wf_token(#[trigger] e.hostnames[i])
    &&& match e.comment {
        Option::Some(c) => wf_comment(c),
        Option::None => true,
    }
}

/// No position of `s` starts a comment.
spec fn no_comment_marker(s: Seq<char>) -> bool {
    forall|p: int| !text::is_comment_start(s, p)
}

proof fn lemma_ncm_concat(a: Seq<char>, b: Seq<char>)
    requires
        no_comment_marker(a),
        no_comment_marker(b),
    ensures
        no_comment_marker(a + b),
{
    let s = a + b;
    assert forall|p: int| !text::is_comment_start(s, p) by {
        if 0 <= p < s.len() && s[p] == '#' {
            if p < a.len() {
                assert(s[p] == a[p]);
                assert(!text::is_comment_start(a, p));
                if p > 0 {
                    assert(s[p - 1] == a[p - 1]);
                }
            } else {
                let q = p - a.len();
                assert(s[p] == b[q]);
                assert(!text::is_comment_start(b, q));
                if q == 0 {
                    assert(b[0] != '#');
                } else {
                    assert(s[p - 1] == b[q - 1]);
                }
            }
        }
    }
}

proof fn lemma_ncm_token(t: Seq<char>)
    requires
        wf_token(t),
    ensures
        no_comment_marker(t),
{
    assert forall|p: int| !text::is_comment_start(t, p) by {
        if 0 < p < t.len() {
            assert(!text::is_space_char(t[p - 1]));
        }
    }
}

proof fn lemma_ncm_spaces(s: Seq<char>)
    requires
        forall|j: int| 0 <= j < s.len() ==> text::is_space_char(#[trigger] s[j]),
    ensures
        no_comment_marker(s),
{
    assert forall|p: int| !text::is_comment_start(s, p) by {
        if 0 <= p < s.len() {
            assert(text::is_space_char(s[p]));
        }
    }
}

proof fn lemma_ncm_join(hs: Seq<Seq<char>>)
    requires
        forall|i: int| 0 <= i < hs.len() ==> wf_token(#[trigger] hs[i]),
    ensures
        no_comment_marker(text::join_with(hs, text::sp1())),
    decreases hs.len(),
{
    if hs.len() == 0 {
        assert forall|p: int| !text::is_comment_start(text::join_with(hs, text::sp1()), p) by {}
    } else if hs.len() == 1 {
        lemma_ncm_token(hs[0]);
    } else {
        let rest = hs.drop_first();
        assert(forall|i: int| 0 <= i < rest.len() ==> wf_token(#[trigger] rest[i]));
        lemma_ncm_join(rest);
        lemma_ncm_token(hs[0]);
        assert(forall|j: int|
            0 <= j < text::sp1().len() ==> text::is_space_char(#[trigger] text::sp1()[j]));
        lemma_ncm_spaces(text::sp1());
        lemma_ncm_concat(text::sp1(), text::join_with(rest, text::sp1()));
        lemma_ncm_concat(hs[0], text::sp1() + text::join_with(rest, text::sp1()));
        assert(hs[0] + (text::sp1() + text::join_with(rest, text::sp1())) =~= text::join_with(
            hs,
            text::sp1(),
        ));
    }
}

/// No newline occurs in `s`.
spec fn no_newline(s: Seq<char>) -> bool {
    forall|j: int| 0 <= j < s.len() ==> #[trigger] s[j] != '\n'
}

proof fn lemma_no_newline_concat(a: Seq<char>, b: Seq<char>)
    requires
        no_newline(a),
        no_newline(b),
    ensures
        no_newline(a + b),
{
    assert forall|j: int| 0 <= j < (a + b).len() implies #[trigger] (a + b)[j] != '\n' by {
        if j < a.len() {
            assert((a + b)[j] == a[j]);
        } else {
            assert((a + b)[j] == b[j - a.len()]);
        }
    }
}

proof fn lemma_no_newline_join(hs: Seq<Seq<char>>)
    requires
        forall|i: int| 0 <= i < hs.len() ==> wf_token(#[trigger] hs[i]),
    ensures
        no_newline(text::join_with(hs, text::sp1())),
    decreases hs.len(),
{
    if hs.len() == 0 {
    } else if hs.len() == 1 {
        assert(no_newline(hs[0]));
    } else {
        let rest = hs.drop_first();
        assert(forall|i: int| 0 <= i < rest.len() ==> wf_token(#[trigger] rest[i]));
        lemma_no_newline_join(rest);
        assert(no_newline(hs[0]));
        assert(no_newline(text::sp1()));
        lemma_no_newline_concat(text::sp1(), text::join_with(rest, text::sp1()));
        lemma_no_newline_concat(hs[0], text::sp1() + text::join_with(rest, text::sp1()));
        assert(hs[0] + (text::sp1() + text::join_with(rest, text::sp1())) =~= text::join_with(
            hs,
            text::sp1(),
        ));
    }
}

proof fn lemma_entry_line_no_newline(e: EntryModel)
    requires
        wf_entry(e),
    ensures
        no_newline(entry_line(e)),
{
    reveal_strlit("    ");
    reveal_strlit("  # ");
    let sp4 = "    "@;
    let mark = "  # "@;
    assert(no_newline(sp4));
    assert(no_newline(mark));
    assert(no_newline(e.ip));
    lemma_no_newline_join(e.hostnames);
    lemma_no_newline_concat(e.ip, sp4);
    lemma_no_newline_concat(e.ip + sp4, text::join_with(e.hostnames, text::sp1()));
    let base = e.ip + sp4 + text::join_with(e.hostnames, text::sp1());
    match e.comment {
        Option::Some(c) => {
            assert(no_newline(c));
            lemma_no_newline_concat(base, mark);
            lemma_no_newline_concat(base + mark, c);
        },
        Option::None => {},
    }
}

/// Tokenizing the serialized address-and-hostnames part recovers the
/// address and the hostnames.
proof fn lemma_tokens_of_base(e: EntryModel, tail: Seq<char>)
    requires
        wf_entry(e),
        forall|j: int| 0 <= j < tail.len() ==> text::is_space_char(#[trigger] tail[j]),
    ensures
        text::tokens(e.ip + "    "@ + text::join_with(e.hostnames, text::sp1()) + tail)
            == seq![e.ip] + e.hostnames,
{
    reveal_strlit("    ");
    let sp4 = "    "@;
    assert(sp4.len() == 4);
    assert(forall|j: int| 0 <= j < 4 ==> text::is_space_char(#[trigger] sp4[j]));
    let join = text::join_with(e.hostnames, text::sp1());
    let line = e.ip + sp4 + join + tail;
    assert(line =~= e.ip + (sp4 + (join + tail)));
    assert(text::is_space_char((sp4 + (join + tail))[0]));
    text::lemma_tokens_word(e.ip, sp4 + (join + tail));
    text::lemma_tokens_space_prefix(sp4, join + tail);
    assert(forall|i: int|
        0 <= i < e.hostnames.len() ==> (#[trigger] e.hostnames[i]).len() > 0 && forall|j: int|
            0 <= j < e.hostnames[i].len() ==> !text::is_space_char(#[trigger] e.hostnames[i][j]));
    text::lemma_tokens_join(e.hostnames, tail);
    text::lemma_tokens_all_space(tail);
    assert(e.hostnames + Seq::<Seq<char>>::empty() =~= e.hostnames);
    assert(text::tokens(line) == seq![e.ip] + e.hostnames);
}

/// The central line-level fact: a well-formed entry's serialized line
/// parses back to exactly that entry.
pub proof fn lemma_parse_entry_line(e: EntryModel)
    requires
        wf_entry(e),
    ensures
        parse_line(entry_line(e)) == Option::Some(e),
{
    reveal_strlit("    ");
    reveal_strlit("  # ");
    let sp4 = "    "@;
    let mark = "  # "@;
    assert(sp4.len() == 4);
    assert(mark.len() == 4);
    assert(forall|j: int| 0 <= j < 4 ==> text::is_space_char(#[trigger] sp4[j]));
    assert(mark[0] == ' ' && mark[1] == ' ' && mark[2] == '#' && mark[3] == ' ');
    let join = text::join_with(e.hostnames, text::sp1());
    let base = e.ip + sp4 + join;
    lemma_ncm_token(e.ip);
    lemma_ncm_spaces(sp4);
    lemma_ncm_join(e.hostnames);
    lemma_ncm_concat(sp4, join);
    lemma_ncm_concat(e.ip, sp4 + join);
    assert(e.ip + (sp4 + join) =~= base);
    assert(no_comment_marker(base));
    match e.comment {
        Option::None => {
            let line = entry_line(e);
            assert(line == base);
            assert(forall|q: int| 0 <= q < line.len() ==> !text::is_comment_start(line, q));
            text::lemma_comment_start_none(line, 0);
            assert(base + Seq::<char>::empty() =~= base);
            lemma_tokens_of_base(e, Seq::<char>::empty());
            let toks = text::tokens(line);
            assert(toks == seq![e.ip] + e.hostnames);
            assert(toks.len() == 1 + e.hostnames.len());
            assert(toks[0] == e.ip);
            assert(toks.drop_first() =~= e.hostnames);
            assert(entry_from(toks, Option::None) == Option::Some(EntryModel {
                ip: e.ip,
                hostnames: toks.drop_first(),
                comment: Option::None,
            }));
            assert(EntryModel {
                ip: e.ip,
                hostnames: toks.drop_first(),
                comment: Option::None,
            } =~= e);
        },
        Option::Some(c) => {
            let line = base + mark + c;
            assert(entry_line(e) == line);
            let p = base.len() as int + 2;
            assert((base + mark)[p] == '#');
            assert((base + mark)[p - 1] == ' ');
            assert(line[p] == '#');
            assert(line[p - 1] == ' ');
            assert(text::is_comment_start(line, p));
            let sp2 = mark.take(2);
            assert(forall|j: int| 0 <= j < sp2.len() ==> text::is_space_char(#[trigger] sp2[j]));
            lemma_ncm_spaces(sp2);
            lemma_ncm_concat(base, sp2);
            let pre = base + sp2;
            assert forall|q: int| 0 <= q < p implies !text::is_comment_start(line, q) by {
                assert(!text::is_comment_start(pre, q));
                assert(line[q] == pre[q]);
                if q > 0 {
                    assert(line[q - 1] == pre[q - 1]);
                }
            }
            text::lemma_comment_start_some(line, 0, p);
            assert(text::comment_start(line) == Option::Some(p));
            // Tokens before the marker.
            assert(line.take(p) =~= e.ip + sp4 + join + sp2);
            lemma_tokens_of_base(e, sp2);
            let toks = text::tokens(line.take(p));
            assert(toks == seq![e.ip] + e.hostnames);
            assert(toks.len() == 1 + e.hostnames.len());
            assert(toks[0] == e.ip);
            assert(toks.drop_first() =~= e.hostnames);
            // The comment after the marker.
            assert(line.skip(p + 1) =~= text::sp1() + c);
            text::lemma_trim_space_prefix(c);
            assert(text::trim_spec(line.skip(p + 1)) == c);
            assert(entry_from(toks, Option::Some(c)) == Option::Some(EntryModel {
                ip: e.ip,
                hostnames: toks.drop_first(),
                comment: Option::Some(c),
            }));
            assert(EntryModel {
                ip: e.ip,
                hostnames: toks.drop_first(),
                comment: Option::Some(c),
            } =~= e);
        },
    }
}

proof fn lemma_parse_empty_line()
    ensures
        parse_line(Seq::<char>::empty()) is None,
{
    let l = Seq::<char>::empty();
    assert(text::comment_start(l) is None);
    assert(text::tokens(l).len() == 0);
}

/// Each serialized block of well-formed entries parses back to them.
proof fn lemma_parse_entry_block(entries: Seq<EntryModel>)
    requires
        forall|i: int| 0 <= i < entries.len() ==> wf_entry(#[trigger] entries[i]),
    ensures
        parse_lines(text::split_lines(entry_block(entries))) == entries,
    decreases entries.len(),
{
    if entries.len() == 0 {
        let empty = Seq::<char>::empty();
        assert(entry_block(entries) == empty);
        assert(text::first_char(empty, '\n') == 0);
        assert(text::split_lines(empty) == seq![empty]);
        lemma_parse_empty_line();
        let ls = seq![empty];
        assert(ls[0] == empty);
        assert(ls.drop_first() =~= Seq::<Seq<char>>::empty());
        assert(parse_lines(ls) == parse_lines(Seq::<Seq<char>>::empty()));
        assert(parse_lines(ls) =~= entries);
    } else {
        let e = entries[0];
        let rest = entries.drop_first();
        assert(wf_entry(e));
        assert(forall|i: int| 0 <= i < rest.len() ==> wf_entry(#[trigger] rest[i]));
        lemma_entry_line_no_newline(e);
        text::lemma_split_lines_step(entry_line(e), entry_block(rest));
        assert(entry_block(entries) == entry_line(e) + seq!['\n'] + entry_block(rest));
        let ls = text::split_lines(entry_block(entries));
        assert(ls == seq![entry_line(e)] + text::split_lines(entry_block(rest)));
        assert(ls[0] == entry_line(e));
        assert(ls.len() > 0);
        lemma_parse_entry_line(e);
        assert(ls.drop_first() =~= text::split_lines(entry_block(rest)));
        lemma_parse_entry_block(rest);
        assert(parse_lines(ls) == seq![e] + rest);
        assert(seq![e] + rest =~= entries);
    }
}

proof fn lemma_parse_loopback1()
    ensures
        parse_line(loopback_line1()) is None,
{
    reveal_strlit("127.0.0.1       localhost");
    reveal_strlit("127.0.0.1");
    reveal_strlit("       ");
    reveal_strlit("localhost");
    let lb = loopback_line1();
    let ip = "127.0.0.1"@;
    let sp = "       "@;
    let host = "localhost"@;
    assert(lb =~= ip + (sp + host));
    assert(forall|p: int| 0 <= p < lb.len() ==> #[trigger] lb[p] != '#');
    assert forall|p: int| !text::is_comment_start(lb, p) by {
        if 0 <= p < lb.len() {
            assert(lb[p] != '#');
        }
    }
    text::lemma_comment_start_none(lb, 0);
    assert(ip.len() == 9);
    assert(forall|j: int| 0 <= j < 9 ==> !text::is_space_char(#[trigger] ip[j]));
    assert(forall|j: int| 0 <= j < sp.len() ==> text::is_space_char(#[trigger] sp[j]));
    assert(text::is_space_char((sp + host)[0]));
    text::lemma_tokens_word(ip, sp + host);
    text::lemma_tokens_space_prefix(sp, host);
    assert(host.len() == 9);
    assert(forall|j: int| 0 <= j < 9 ==> !text::is_space_char(#[trigger] host[j]));
    assert(host + Seq::<char>::empty() =~= host);
    text::lemma_tokens_word(host, Seq::<char>::empty());
    assert(text::tokens(Seq::<char>::empty()).len() == 0);
    assert(text::tokens(host) == seq![host] + Seq::<Seq<char>>::empty());
    let toks = text::tokens(lb);
    assert(toks == seq![ip] + (seq![host] + Seq::<Seq<char>>::empty()));
    assert(toks[0] == ip);
    assert(is_loopback_ip(toks[0]));
}

proof fn lemma_parse_loopback2(p: Platform)
    ensures
        parse_line(loopback_line2(p)) is None,
{
    let lb = loopback_line2(p);
    assert forall|q: int| !text::is_comment_start(lb, q) by {
        reveal_strlit("::1             localhost");
        reveal_strlit("::1             localhost ip6-localhost ip6-loopback");
        if 0 <= q < lb.len() {
            assert(lb[q] != '#');
        }
    }
    text::lemma_comment_start_none(lb, 0);
    reveal_strlit("::1");
    let ip = "::1"@;
    assert(ip.len() == 3);
    assert(forall|j: int| 0 <= j < 3 ==> !text::is_space_char(#[trigger] ip[j]));
    if p == Platform::Windows {
        reveal_strlit("::1             localhost");
        reveal_strlit("             ");
        reveal_strlit("localhost");
        let sp = "             "@;
        let host = "localhost"@;
        assert(lb =~= ip + (sp + host));
        assert(forall|j: int| 0 <= j < sp.len() ==> text::is_space_char(#[trigger] sp[j]));
        assert(text::is_space_char((sp + host)[0]));
        text::lemma_tokens_word(ip, sp + host);
        text::lemma_tokens_space_prefix(sp, host);
        assert(forall|j: int| 0 <= j < host.len() ==> !text::is_space_char(#[trigger] host[j]));
        assert(host + Seq::<char>::empty() =~= host);
        text::lemma_tokens_word(host, Seq::<char>::empty());
        let toks = text::tokens(lb);
        assert(toks[0] == ip);
        assert(is_loopback_ip(toks[0]));
    } else {
        reveal_strlit("::1             localhost ip6-localhost ip6-loopback");
        reveal_strlit("             ");
        reveal_strlit("localhost");
        reveal_strlit("ip6-localhost");
        reveal_strlit("ip6-loopback");
        let sp = "             "@;
        let h1 = "localhost"@;
        let h2 = "ip6-localhost"@;
        let h3 = "ip6-loopback"@;
        let parts = seq![h1, h2, h3];
        assert(forall|j: int| 0 <= j < h1.len() ==> !text::is_space_char(#[trigger] h1[j]));
        assert(forall|j: int| 0 <= j < h2.len() ==> !text::is_space_char(#[trigger] h2[j]));
        assert(forall|j: int| 0 <= j < h3.len() ==> !text::is_space_char(#[trigger] h3[j]));
        let join = text::join_with(parts, text::sp1());
        let j3 = text::join_with(seq![h3], text::sp1());
        assert(j3 == h3);
        let j23 = text::join_with(seq![h2, h3], text::sp1());
        assert(seq![h2, h3].drop_first() =~= seq![h3]);
        assert(j23 == h2 + text::sp1() + j3);
        assert(parts.drop_first() =~= seq![h2, h3]);
        assert(join == h1 + text::sp1() + j23);
        assert(lb =~= ip + (sp + join));
        assert(forall|j: int| 0 <= j < sp.len() ==> text::is_space_char(#[trigger] sp[j]));
        assert(text::is_space_char((sp + join)[0]));
        text::lemma_tokens_word(ip, sp + join);
        text::lemma_tokens_space_prefix(sp, join);
        assert(forall|i: int|
            0 <= i < parts.len() ==> (#[trigger] parts[i]).len() > 0 && forall|j: int|
                0 <= j < parts[i].len() ==> !text::is_space_char(#[trigger] parts[i][j]));
        text::lemma_tokens_join(parts, Seq::<char>::empty());
        assert(join + Seq::<char>::empty() =~= join);
        let toks = text::tokens(lb);
        assert(toks == seq![ip] + (parts + text::tokens(Seq::<char>::empty())));
        assert(toks[0] == ip);
        assert(is_loopback_ip(toks[0]));
    }
}

/// The hosts-table round trip: parsing a saved table yields exactly the
/// custom entries that were saved, in order; the two loopback rows are
/// regenerated, not retained.
pub proof fn lemma_hosts_round_trip(entries: Seq<EntryModel>, p: Platform)
    requires
        forall|i: int| 0 <= i < entries.len() ==> wf_entry(#[trigger] entries[i]),
    ensures
        parse_hosts(hosts_text(entries, p)) == entries,
{
    let lb1 = loopback_line1();
    let lb2 = loopback_line2(p);
    let eb = entry_block(entries);
    let nl = seq!['\n'];
    let empty = Seq::<char>::empty();
    let content = hosts_text(entries, p);
    assert(no_newline(lb1)) by {
        reveal_strlit("127.0.0.1       localhost");
    }
    assert(no_newline(lb2)) by {
        reveal_strlit("::1             localhost");
        reveal_strlit("::1             localhost ip6-localhost ip6-loopback");
    }
    let rest2 = empty + nl + eb;
    let rest1 = lb2 + nl + rest2;
    assert(content =~= lb1 + nl + rest1);
    text::lemma_split_lines_step(lb1, rest1);
    text::lemma_split_lines_step(lb2, rest2);
    assert(no_newline(empty));
    text::lemma_split_lines_step(empty, eb);
    assert(text::split_lines(content) == seq![lb1] + (seq![lb2] + (seq![empty]
        + text::split_lines(eb))));
    let ls = text::split_lines(content);
    lemma_parse_loopback1();
    lemma_parse_loopback2(p);
    lemma_parse_empty_line();
    let ls1 = seq![lb2] + (seq![empty] + text::split_lines(eb));
    let ls2 = seq![empty] + text::split_lines(eb);
    assert(ls[0] == lb1);
    assert(ls.drop_first() =~= ls1);
    assert(parse_lines(ls) == parse_lines(ls1));
    assert(ls1[0] == lb2);
    assert(ls1.drop_first() =~= ls2);
    assert(parse_lines(ls1) == parse_lines(ls2));
    assert(ls2[0] == empty);
    assert(ls2.drop_first() =~= text::split_lines(eb));
    assert(parse_lines(ls2) == parse_lines(text::split_lines(eb)));
    lemma_parse_entry_block(entries);
}

} // verus!

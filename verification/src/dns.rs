//! DNS providers: the built-in catalog, providers read from a user's
//! configuration, and the resolver configuration that selects one.

use crate::ip::{is_ip_range, is_ip_text};
use crate::text::{
    chars_of, is_whitespace, join, join_strings, lemma_leading_whitespace, lemma_split_first,
    lemma_texts_push, lemma_trim_tight, lemma_whitespace_within, lemma_word_len, ranges_within,
    slices, split_on, split_ranges, starts_with_range, texts, trim, trim_range, trim_start,
    word_at, word_range,
};
use vstd::prelude::*;

verus! {

broadcast use vstd::string::group_string_axioms;

/// The path of the resolver configuration.
pub const RESOLV_CONF_PATH: &'static str = "/etc/resolv.conf";

/// A named set of DNS servers. One without servers stands for automatic
/// resolution, as the network assigns it.
#[derive(Debug)]
pub struct DnsOption {
    pub name: String,
    pub servers: Vec<String>,
}

/// What a `DnsOption` holds: its name and its servers, in order.
pub struct Provider {
    pub name: Seq<char>,
    pub servers: Seq<Seq<char>>,
}

impl View for DnsOption {
    type V = Provider;

    open spec fn view(&self) -> Provider {
        Provider { name: self.name@, servers: texts(self.servers@) }
    }
}

impl DeepView for DnsOption {
    type V = Provider;

    open spec fn deep_view(&self) -> Provider {
        self@
    }
}

impl Clone for DnsOption {
    fn clone(&self) -> (copy: DnsOption)
        ensures
            copy@ == self@,
    {
        let mut servers: Vec<String> = Vec::new();
        let mut i: usize = 0;
        while i < self.servers.len()
            invariant
                i <= self.servers.len(),
                texts(servers@) == texts(self.servers@).take(i as int),
            decreases self.servers.len() - i,
        {
            proof {
                lemma_texts_push(servers@, self.servers[i as int]);
                assert(texts(self.servers@).take(i + 1) =~= texts(self.servers@).take(
                    i as int,
                ).push(self.servers[i as int]@));
            }
            servers.push(self.servers[i].clone());
            i += 1;
        }
        assert(texts(self.servers@).take(self.servers.len() as int) =~= texts(self.servers@));
        DnsOption { name: self.name.clone(), servers }
    }
}

/// The name of the provider that stands for automatic resolution.
pub open spec fn reset_name() -> Seq<char> {
    "Reset (Automatic/ISP)"@
}

/// The built-in providers, in the order in which they are offered. The last
/// one has no servers: it resets the resolver to automatic resolution.
pub open spec fn builtin_providers() -> Seq<Provider> {
    seq![
        Provider { name: "Cloudflare"@, servers: seq!["1.1.1.1"@, "1.0.0.1"@] },
        Provider { name: "Google"@, servers: seq!["8.8.8.8"@, "8.8.4.4"@] },
        Provider { name: "Quad9"@, servers: seq!["9.9.9.9"@, "149.112.112.112"@] },
        Provider { name: "OpenDNS"@, servers: seq!["208.67.222.222"@, "208.67.220.220"@] },
        Provider { name: "CleanBrowsing"@, servers: seq!["185.228.168.9"@, "185.228.169.9"@] },
        Provider { name: "Shecan"@, servers: seq!["178.22.122.100"@, "185.51.200.2"@] },
        Provider { name: "Electro"@, servers: seq!["78.157.42.100"@, "78.157.42.101"@] },
        Provider { name: "Begzar"@, servers: seq!["185.55.226.26"@, "185.55.225.25"@] },
        Provider { name: reset_name(), servers: Seq::empty() },
    ]
}

/// The provider that resets the resolver to automatic resolution.
pub fn reset_option() -> (option: DnsOption)
    ensures
        option@ == (Provider { name: reset_name(), servers: Seq::empty() }),
{
    let option = DnsOption { name: "Reset (Automatic/ISP)".to_string(), servers: Vec::new() };
    assert(texts(option.servers@) =~= Seq::empty());
    option
}

/// A provider with two servers.
fn pair_option(name: &str, first: &str, second: &str) -> (option: DnsOption)
    ensures
        option@ == (Provider { name: name@, servers: seq![first@, second@] }),
{
    let option = DnsOption {
        name: name.to_string(),
        servers: vec![first.to_string(), second.to_string()],
    };
    assert(texts(option.servers@) =~= seq![first@, second@]);
    option
}

/// The built-in providers.
pub fn builtin_dns_options() -> (options: Vec<DnsOption>)
    ensures
        options.deep_view() == builtin_providers(),
{
    let options = vec![
        pair_option("Cloudflare", "1.1.1.1", "1.0.0.1"),
        pair_option("Google", "8.8.8.8", "8.8.4.4"),
        pair_option("Quad9", "9.9.9.9", "149.112.112.112"),
        pair_option("OpenDNS", "208.67.222.222", "208.67.220.220"),
        pair_option("CleanBrowsing", "185.228.168.9", "185.228.169.9"),
        pair_option("Shecan", "178.22.122.100", "185.51.200.2"),
        pair_option("Electro", "78.157.42.100", "78.157.42.101"),
        pair_option("Begzar", "185.55.226.26", "185.55.225.25"),
        reset_option(),
    ];
    assert(options.deep_view() =~= builtin_providers());
    options
}

/// How a list of servers is shown: the servers with `", "` between them, or
/// `Automatic/ISP` where there is none.
pub open spec fn servers_summary(servers: Seq<Seq<char>>) -> Seq<char> {
    if servers.len() == 0 {
        "Automatic/ISP"@
    } else {
        join(servers, ", "@)
    }
}

/// The fields of a line of a user's configuration: the pieces of the trimmed
/// line between `|`, each trimmed.
pub open spec fn line_fields(line: Seq<char>) -> Seq<Seq<char>> {
    split_on(trim(line), '|').map_values(|field: Seq<char>| trim(field))
}

/// Those of the fields that are IP addresses, in their order.
pub open spec fn ip_fields(fields: Seq<Seq<char>>) -> Seq<Seq<char>> {
    fields.filter(|field: Seq<char>| is_ip_text(field))
}

/// The provider that a line of a user's configuration defines. The first
/// field is its name. Of the fields after it, those that are IP addresses are
/// its servers, in their order; the others are passed over. A line that
/// leaves no server defines no provider.
pub open spec fn parse_line(line: Seq<char>) -> Option<Provider> {
    let fields = line_fields(line);
    let servers = ip_fields(fields.skip(1));
    if servers.len() > 0 {
        Some(Provider { name: fields[0], servers })
    } else {
        None
    }
}

/// The providers that the lines of a user's configuration define, in the
/// order of the lines.
pub open spec fn parse_lines(lines: Seq<Seq<char>>) -> Seq<Provider> {
    lines.filter_map(|line: Seq<char>| parse_line(line))
}

/// The server that a line of a resolver configuration names: the second
/// white-space-delimited word of a line that, trimmed, starts with
/// `nameserver`.
pub open spec fn nameserver_of(line: Seq<char>) -> Option<Seq<char>> {
    let t = trim(line);
    if "nameserver"@.is_prefix_of(t) {
        word_at(t, 1)
    } else {
        None
    }
}

/// The servers that a resolver configuration names, in the order of its
/// lines.
pub open spec fn nameservers(content: Seq<char>) -> Seq<Seq<char>> {
    split_on(content, '\n').filter_map(|line: Seq<char>| nameserver_of(line))
}

/// One `nameserver` line for each server, in order.
pub open spec fn nameserver_lines(servers: Seq<Seq<char>>) -> Seq<char>
    decreases servers.len(),
{
    if servers.len() == 0 {
        Seq::empty()
    } else {
        nameserver_lines(servers.drop_last()) + "nameserver "@ + servers.last() + "\n"@
    }
}

/// The resolver configuration that selects a provider: a comment line with
/// its name, then its servers. A provider without servers leaves the comment
/// line alone.
pub open spec fn resolv_conf(provider: Provider) -> Seq<char> {
    if provider.servers.len() == 0 {
        "# "@ + provider.name + "\n"@
    } else {
        "# "@ + provider.name + " DNS\n"@ + nameserver_lines(provider.servers)
    }
}

/// The lines of a user's configuration that define a provider, in order.
pub open spec fn defining_lines(lines: Seq<Seq<char>>) -> Seq<Seq<char>> {
    lines.filter(|line: Seq<char>| parse_line(line) is Some)
}

/// The providers of a user's configuration are those of its defining lines,
/// one for each and in the same order.
pub proof fn lemma_parse_lines(lines: Seq<Seq<char>>)
    ensures
        parse_lines(lines).len() == defining_lines(lines).len(),
        forall|j: int|
            0 <= j < defining_lines(lines).len() ==> Some(#[trigger] parse_lines(lines)[j])
                == parse_line(defining_lines(lines)[j]),
    decreases lines.len(),
{
    reveal(Seq::filter);
    if lines.len() > 0 {
        lemma_parse_lines(lines.drop_last());
    }
}

/// The catalog holds the built-in providers first, in their fixed order, then
/// the providers of the user's configuration in the order of its lines: nine
/// entries and one more for each line that defines a provider.
pub proof fn lemma_catalog_layout(lines: Seq<Seq<char>>)
    ensures
        ({
            let all = builtin_providers() + parse_lines(lines);
            let defining = defining_lines(lines);
            &&& all.len() == 9 + defining.len()
            &&& forall|i: int| 0 <= i < 9 ==> #[trigger] all[i] == builtin_providers()[i]
            &&& forall|j: int|
                0 <= j < defining.len() ==> Some(#[trigger] all[9 + j]) == parse_line(defining[j])
        }),
{
    lemma_parse_lines(lines);
    let all = builtin_providers() + parse_lines(lines);
    let defining = defining_lines(lines);
    assert forall|j: int| 0 <= j < defining.len() implies Some(#[trigger] all[9 + j])
        == parse_line(defining[j]) by {
        assert(all[9 + j] == parse_lines(lines)[j]);
    }
}

/// Lines that name no server give no servers.
proof fn lemma_no_nameservers(lines: Seq<Seq<char>>)
    requires
        forall|k: int| 0 <= k < lines.len() ==> nameserver_of(#[trigger] lines[k]) is None,
    ensures
        lines.filter_map(|line: Seq<char>| nameserver_of(line)).len() == 0,
    decreases lines.len(),
{
    if lines.len() > 0 {
        let rest = lines.drop_last();
        assert forall|k: int| 0 <= k < rest.len() implies nameserver_of(#[trigger] rest[k])
            is None by {
            assert(rest[k] == lines[k]);
        }
        lemma_no_nameservers(rest);
        assert(nameserver_of(lines.last()) is None) by {
            assert(lines.last() == lines[lines.len() - 1]);
        }
    }
}

/// A resolver configuration without a line that, trimmed, starts with
/// `nameserver` is shown as `Automatic/ISP`.
pub proof fn lemma_no_nameserver_line_is_automatic(content: Seq<char>)
    requires
        forall|k: int|
            0 <= k < split_on(content, '\n').len() ==> !"nameserver"@.is_prefix_of(
                trim(#[trigger] split_on(content, '\n')[k]),
            ),
    ensures
        servers_summary(nameservers(content)) == "Automatic/ISP"@,
{
    lemma_no_nameservers(split_on(content, '\n'));
}

/// Whether `s` is a word: not empty and free of white space.
pub open spec fn is_word(s: Seq<char>) -> bool {
    &&& s.len() > 0
    &&& forall|i: int| 0 <= i < s.len() ==> !is_whitespace(#[trigger] s[i])
}

/// The servers of a sequence that starts with `first` are the server that
/// `first` names, if it names one, and then those of the rest.
proof fn lemma_nameservers_first(first: Seq<char>, rest: Seq<Seq<char>>)
    ensures
        (seq![first] + rest).filter_map(|line: Seq<char>| nameserver_of(line)) == (
        match nameserver_of(first) {
            Some(server) => seq![server],
            None => Seq::empty(),
        }) + rest.filter_map(|line: Seq<char>| nameserver_of(line)),
    decreases rest.len(),
{
    let named = |line: Seq<char>| nameserver_of(line);
    let head = match nameserver_of(first) {
        Some(server) => seq![server],
        None => Seq::empty(),
    };
    if rest.len() == 0 {
        assert(seq![first] + rest =~= seq![first]);
        Seq::lemma_filter_map_singleton(first, named);
        assert(rest.filter_map(named) =~= Seq::<Seq<char>>::empty());
        assert(head + rest.filter_map(named) =~= head);
    } else {
        let all = seq![first] + rest;
        assert(all.drop_last() =~= seq![first] + rest.drop_last());
        assert(all.last() == rest.last());
        lemma_nameservers_first(first, rest.drop_last());
        assert(all.filter_map(named) =~= head + rest.filter_map(named));
    }
}

/// The keyword is ten characters that are neither white space nor a line
/// break.
proof fn lemma_keyword()
    ensures
        "nameserver"@.len() == 10,
        "nameserver "@ == "nameserver"@ + seq![' '],
        "\n"@ == seq!['\n'],
        "nameserver"@[0] == 'n',
        forall|i: int| 0 <= i < 10 ==> !is_whitespace(#[trigger] "nameserver"@[i]),
{
    reveal_strlit("nameserver ");
    reveal_strlit("nameserver");
    reveal_strlit("\n");
    assert("nameserver "@ =~= "nameserver"@ + seq![' ']);
    assert("\n"@ =~= seq!['\n']);
}

/// A `nameserver` line names the word that follows the keyword, and holds no
/// line break.
proof fn lemma_nameserver_line(server: Seq<char>)
    requires
        is_word(server),
    ensures
        nameserver_of("nameserver "@ + server) == Some(server),
        forall|i: int|
            0 <= i < ("nameserver "@ + server).len() ==> #[trigger] ("nameserver "@ + server)[i]
                != '\n',
{
    lemma_keyword();
    let keyword = "nameserver"@;
    let line = "nameserver "@ + server;
    assert(line =~= keyword + seq![' '] + server);
    assert forall|i: int| 0 <= i < 10 implies !is_whitespace(#[trigger] line[i]) by {
        assert(line[i] == keyword[i]);
    }
    assert(line[10] == ' ');
    assert forall|i: int| 11 <= i < line.len() implies !is_whitespace(#[trigger] line[i]) by {
        assert(line[i] == server[i - 11]);
    }
    assert(line.last() == line[line.len() - 1]);
    lemma_trim_tight(line);
    assert(keyword.is_prefix_of(line)) by {
        assert(keyword =~= line.subrange(0, 10));
    }
    assert(line.skip(11) =~= server);
    lemma_nameserver_word(line, server);
}

/// The second word of a line made of ten characters that are not white
/// space, a space and a word is that word.
proof fn lemma_nameserver_word(line: Seq<char>, server: Seq<char>)
    requires
        is_word(server),
        line.len() == 11 + server.len(),
        forall|i: int| 0 <= i < 10 ==> !is_whitespace(#[trigger] line[i]),
        line[10] == ' ',
        line.skip(11) == server,
    ensures
        word_at(line, 1) == Some(server),
{
    lemma_leading_whitespace(line, 0);
    assert(trim_start(line) =~= line);
    lemma_word_len(line, 10);
    let rest = line.skip(10);
    assert(rest[0] == ' ');
    assert(rest.len() > 1 && rest[1] == server[0]) by {
        assert(line.skip(11)[0] == line[11]);
    }
    lemma_leading_whitespace(rest, 1);
    assert(trim_start(rest) =~= server);
    lemma_word_len(server, server.len() as int);
    assert(server.take(server.len() as int) =~= server);
    assert(word_at(rest, 0) == Some(server));
}

/// The `nameserver` lines of servers start with the line of the first.
proof fn lemma_nameserver_lines_first(servers: Seq<Seq<char>>)
    requires
        servers.len() > 0,
    ensures
        nameserver_lines(servers) == "nameserver "@ + servers[0] + "\n"@ + nameserver_lines(
            servers.drop_first(),
        ),
    decreases servers.len(),
{
    if servers.len() == 1 {
        assert(servers.drop_last() =~= Seq::<Seq<char>>::empty());
        assert(servers.drop_first() =~= Seq::<Seq<char>>::empty());
        assert(nameserver_lines(servers) =~= "nameserver "@ + servers[0] + "\n"@
            + nameserver_lines(servers.drop_first()));
    } else {
        let front = servers.drop_last();
        lemma_nameserver_lines_first(front);
        assert(front.drop_first() =~= servers.drop_first().drop_last());
        assert(servers.drop_first().last() == servers.last());
        assert(nameserver_lines(servers) =~= "nameserver "@ + servers[0] + "\n"@
            + nameserver_lines(servers.drop_first()));
    }
}

/// An empty line names no server.
proof fn lemma_empty_line()
    ensures
        nameservers(Seq::empty()) == Seq::<Seq<char>>::empty(),
{
    lemma_keyword();
    let none = Seq::<char>::empty();
    assert(split_on(none, '\n') =~= seq![none]);
    assert(trim(none) =~= none);
    Seq::lemma_filter_map_singleton(none, |line: Seq<char>| nameserver_of(line));
}

/// The `nameserver` lines of words name those words.
proof fn lemma_nameserver_lines_read_back(servers: Seq<Seq<char>>)
    requires
        forall|k: int| 0 <= k < servers.len() ==> is_word(#[trigger] servers[k]),
    ensures
        nameservers(nameserver_lines(servers)) == servers,
    decreases servers.len(),
{
    if servers.len() == 0 {
        lemma_empty_line();
        assert(nameserver_lines(servers) =~= Seq::<char>::empty());
        assert(servers =~= Seq::<Seq<char>>::empty());
    } else {
        let rest = servers.drop_first();
        let line = "nameserver "@ + servers[0];
        lemma_keyword();
        lemma_nameserver_lines_first(servers);
        lemma_nameserver_line(servers[0]);
        assert forall|k: int| 0 <= k < rest.len() implies is_word(#[trigger] rest[k]) by {
            assert(rest[k] == servers[k + 1]);
        }
        lemma_nameserver_lines_read_back(rest);
        lemma_split_first(line, nameserver_lines(rest), '\n');
        lemma_nameservers_first(line, split_on(nameserver_lines(rest), '\n'));
        assert(nameservers(nameserver_lines(servers)) =~= seq![servers[0]] + rest);
        assert(seq![servers[0]] + rest =~= servers);
    }
}

/// A line that starts with `#` names no server.
proof fn lemma_comment_line(line: Seq<char>)
    requires
        line.len() > 0,
        line[0] == '#',
    ensures
        nameserver_of(line) is None,
{
    lemma_keyword();
    lemma_leading_whitespace(line, 0);
    assert(trim_start(line) =~= line);
    lemma_whitespace_within(line);
    let t = trim(line);
    if "nameserver"@.is_prefix_of(t) {
        assert(t[0] == "nameserver"@.subrange(0, 10)[0]);
        assert(t[0] == line[0]);
    }
}

/// What is written for a provider is read back as its servers, where its
/// name holds no line break and each of its servers is a word.
pub proof fn lemma_written_servers_are_read_back(provider: Provider)
    requires
        forall|i: int| 0 <= i < provider.name.len() ==> #[trigger] provider.name[i] != '\n',
        forall|k: int| 0 <= k < provider.servers.len() ==> is_word(#[trigger] provider.servers[k]),
    ensures
        nameservers(resolv_conf(provider)) == provider.servers,
        servers_summary(nameservers(resolv_conf(provider))) == servers_summary(provider.servers),
{
    reveal_strlit("\n");
    reveal_strlit("# ");
    reveal_strlit(" DNS\n");
    let body = nameserver_lines(provider.servers);
    let comment = if provider.servers.len() == 0 {
        "# "@ + provider.name
    } else {
        "# "@ + provider.name + seq![' ', 'D', 'N', 'S']
    };
    assert(" DNS\n"@ =~= seq![' ', 'D', 'N', 'S'] + seq!['\n']);
    assert("\n"@ =~= seq!['\n']);
    assert(resolv_conf(provider) =~= comment + seq!['\n'] + body) by {
        if provider.servers.len() == 0 {
            assert(body =~= Seq::<char>::empty());
        }
    }
    assert forall|i: int| 0 <= i < comment.len() implies #[trigger] comment[i] != '\n' by {
        if 2 <= i < 2 + provider.name.len() {
            assert(comment[i] == provider.name[i - 2]);
        }
    }
    lemma_split_first(comment, body, '\n');
    lemma_nameservers_first(comment, split_on(body, '\n'));
    lemma_comment_line(comment);
    lemma_nameserver_lines_read_back(provider.servers);
    assert(nameservers(resolv_conf(provider)) =~= provider.servers);
}

/// How the servers are shown: see `servers_summary`.
pub fn describe_servers(servers: &Vec<String>) -> (out: String)
    ensures
        out@ == servers_summary(texts(servers@)),
{
    if servers.len() == 0 {
        "Automatic/ISP".to_string()
    } else {
        join_strings(servers, ", ")
    }
}

/// The IP addresses among the first `k + 1` fields are those among the first
/// `k`, and then the field at `k` if it is one.
proof fn lemma_ip_fields_next(fields: Seq<Seq<char>>, k: int)
    requires
        0 <= k < fields.len(),
    ensures
        ip_fields(fields.take(k + 1)) == if is_ip_text(fields[k]) {
            ip_fields(fields.take(k)).push(fields[k])
        } else {
            ip_fields(fields.take(k))
        },
{
    reveal(Seq::filter);
    assert(fields.take(k + 1).drop_last() =~= fields.take(k));
    assert(fields.take(k + 1).last() == fields[k]);
}

/// The range of the field at `k`, where `ranges` are the pieces of a line:
/// the piece without the white space at its ends.
fn field_range(chars: &Vec<char>, ranges: &Vec<(usize, usize)>, k: usize) -> (r: (usize, usize))
    requires
        k < ranges.len(),
        ranges_within(ranges@, 0, chars.len() as int),
    ensures
        r.0 <= r.1 <= chars.len(),
        chars@.subrange(r.0 as int, r.1 as int) == slices(chars@, ranges@).map_values(
            |field: Seq<char>| trim(field),
        )[k as int],
{
    let (from, to) = ranges[k];
    assert(slices(chars@, ranges@)[k as int] == chars@.subrange(from as int, to as int));
    trim_range(chars, from, to)
}

/// The provider that a line of a user's configuration defines, if it defines
/// one.
pub fn parse_provider_line(line: &str) -> (parsed: Option<DnsOption>)
    ensures
        parsed.deep_view() == parse_line(line@),
{
    let chars = chars_of(line);
    let (from, to) = trim_range(&chars, 0, chars.len());
    assert(chars@.subrange(0, chars@.len() as int) =~= line@);
    let ranges = split_ranges(&chars, from, to, '|');
    let ghost fields = line_fields(line@);
    let ghost tokens = fields.skip(1);
    assert(ranges.len() >= 1);
    let (a, b) = field_range(&chars, &ranges, 0);
    let name = line.substring_char(a, b).to_string();
    let mut servers: Vec<String> = Vec::new();
    let mut k: usize = 1;
    proof {
        reveal(Seq::filter);
        assert(ip_fields(tokens.take(0)) =~= Seq::empty());
        assert(texts(servers@) =~= Seq::empty());
    }
    while k < ranges.len()
        invariant
            1 <= k <= ranges.len(),
            chars@ == line@,
            ranges_within(ranges@, 0, chars.len() as int),
            fields == slices(chars@, ranges@).map_values(|field: Seq<char>| trim(field)),
            tokens == fields.skip(1),
            texts(servers@) == ip_fields(tokens.take(k - 1)),
        decreases ranges.len() - k,
    {
        let (a, b) = field_range(&chars, &ranges, k);
        proof {
            assert(tokens[k - 1] == fields[k as int]);
            lemma_ip_fields_next(tokens, k - 1);
        }
        if is_ip_range(&chars, a, b) {
            let server = line.substring_char(a, b).to_string();
            proof {
                lemma_texts_push(servers@, server);
            }
            servers.push(server);
        }
        k += 1;
    }
    assert(tokens.take(ranges.len() - 1) =~= tokens);
    if servers.len() == 0 {
        None
    } else {
        Some(DnsOption { name, servers })
    }
}

/// The providers that the lines of a user's configuration define, in the
/// order of the lines. A line that defines none is passed over.
pub fn read_extra_dns_options(lines: &Vec<String>) -> (options: Vec<DnsOption>)
    ensures
        options.deep_view() == parse_lines(texts(lines@)),
{
    let mut options: Vec<DnsOption> = Vec::new();
    let mut i: usize = 0;
    assert(options.deep_view() =~= Seq::empty());
    while i < lines.len()
        invariant
            i <= lines.len(),
            options.deep_view() == parse_lines(texts(lines@).take(i as int)),
        decreases lines.len() - i,
    {
        let ghost before = options.deep_view();
        proof {
            assert(texts(lines@).take(i + 1).drop_last() =~= texts(lines@).take(i as int));
            assert(texts(lines@).take(i + 1).last() == lines@[i as int]@);
        }
        match parse_provider_line(lines[i].as_str()) {
            Some(option) => {
                options.push(option);
                assert(options.deep_view() =~= before + seq![option@]);
            },
            None => {},
        }
        i += 1;
    }
    assert(texts(lines@).take(lines.len() as int) =~= texts(lines@));
    options
}

/// Every provider on offer: the built-in ones, then those that the lines of
/// the user's configuration define.
pub fn all_dns_options(lines: &Vec<String>) -> (options: Vec<DnsOption>)
    ensures
        options.deep_view() == builtin_providers() + parse_lines(texts(lines@)),
{
    let mut options = builtin_dns_options();
    let mut extra = read_extra_dns_options(lines);
    let ghost first = options.deep_view();
    let ghost second = extra.deep_view();
    options.append(&mut extra);
    assert(options.deep_view() =~= first + second);
    options
}

/// The server that the line `from..to` of `content` names, if it names one.
fn nameserver_in(
    content: &str,
    chars: &Vec<char>,
    keyword: &Vec<char>,
    from: usize,
    to: usize,
) -> (server: Option<String>)
    requires
        chars@ == content@,
        keyword@ == "nameserver"@,
        from <= to <= chars.len(),
    ensures
        server.deep_view() == nameserver_of(chars@.subrange(from as int, to as int)),
{
    let (a, b) = trim_range(chars, from, to);
    if starts_with_range(chars, a, b, keyword) {
        match word_range(chars, a, b, 1) {
            Some((start, end)) => Some(content.substring_char(start, end).to_string()),
            None => None,
        }
    } else {
        None
    }
}

/// The servers that a resolver configuration names, as they are shown: see
/// `nameservers` and `servers_summary`.
pub fn current_dns_servers(content: &str) -> (out: String)
    ensures
        out@ == servers_summary(nameservers(content@)),
{
    let chars = chars_of(content);
    let keyword = chars_of("nameserver");
    let lines = split_ranges(&chars, 0, chars.len(), '\n');
    assert(chars@.subrange(0, chars@.len() as int) =~= content@);
    let ghost pieces = split_on(content@, '\n');
    let ghost named = |line: Seq<char>| nameserver_of(line);
    let mut servers: Vec<String> = Vec::new();
    let mut k: usize = 0;
    assert(texts(servers@) =~= pieces.take(0).filter_map(named));
    while k < lines.len()
        invariant
            k <= lines.len(),
            chars@ == content@,
            keyword@ == "nameserver"@,
            ranges_within(lines@, 0, chars.len() as int),
            pieces == slices(chars@, lines@),
            named == |line: Seq<char>| nameserver_of(line),
            texts(servers@) == pieces.take(k as int).filter_map(named),
        decreases lines.len() - k,
    {
        let (from, to) = lines[k];
        proof {
            assert(pieces[k as int] == chars@.subrange(from as int, to as int));
            pieces.lemma_filter_map_take_succ(named, k as int);
        }
        match nameserver_in(content, &chars, &keyword, from, to) {
            Some(server) => {
                proof {
                    lemma_texts_push(servers@, server);
                }
                servers.push(server);
            },
            None => {},
        }
        k += 1;
    }
    assert(pieces.take(lines.len() as int) =~= pieces);
    describe_servers(&servers)
}

/// Replaces what `out` holds with the resolver configuration that selects
/// `dns_option`: see `resolv_conf`.
pub fn write_resolv_conf(dns_option: &DnsOption, out: &mut String)
    ensures
        final(out)@ == resolv_conf(dns_option@),
{
    let mut content = String::new();
    content.append("# ");
    content.append(dns_option.name.as_str());
    if dns_option.servers.len() == 0 {
        content.append("\n");
    } else {
        content.append(" DNS\n");
        let ghost head = content@;
        let ghost servers = texts(dns_option.servers@);
        let mut i: usize = 0;
        while i < dns_option.servers.len()
            invariant
                i <= dns_option.servers.len(),
                servers == texts(dns_option.servers@),
                content@ == head + nameserver_lines(servers.take(i as int)),
            decreases dns_option.servers.len() - i,
        {
            proof {
                assert(servers.take(i + 1).drop_last() =~= servers.take(i as int));
                assert(servers.take(i + 1).last() == dns_option.servers@[i as int]@);
            }
            content.append("nameserver ");
            content.append(dns_option.servers[i].as_str());
            content.append("\n");
            i += 1;
        }
        assert(servers.take(dns_option.servers.len() as int) =~= servers);
    }
    *out = content;
}

} // verus!

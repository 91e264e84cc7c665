//! The server configuration: an Apache-style, line-oriented text of
//! top-level directives and `<VirtualHost>` blocks.

use vstd::prelude::*;
use vstd::string::*;
use crate::error::Error;
use crate::fields::{upsert, Field, FieldMap};
use crate::parse::{discard_char, discard_string};
use crate::text::{
    lemma_prefix_concat, ascii, bytes_eq, cut, lemma_first_match_sound, lit, split_once, to_vec, trim, trimmed,
    first_match,
};

verus! {

/// The directives that a configuration can hold.
#[derive(Clone, Copy, Debug, PartialEq, Eq, Structural, Hash)]
pub enum Directive {
    CacheSize,
    DocumentRoot,
    ListenPort,
    ServerName,
    ThreadPoolSize,
}

impl Field for Directive {
    fn same(&self, other: &Self) -> (r: bool) {
        *self == *other
    }
}

/// The directive that a keyword names.
pub open spec fn directive_of(word: Seq<u8>) -> Option<Directive> {
    if word == ascii("CacheSize"@) {
        Some(Directive::CacheSize)
    } else if word == ascii("DocumentRoot"@) {
        Some(Directive::DocumentRoot)
    } else if word == ascii("Listen"@) {
        Some(Directive::ListenPort)
    } else if word == ascii("ServerName"@) {
        Some(Directive::ServerName)
    } else if word == ascii("ThreadPoolSize"@) {
        Some(Directive::ThreadPoolSize)
    } else {
        None
    }
}

impl Directive {
    /// The directive that `word` names; fails on any other word.
    pub fn from_str(word: &[u8]) -> (r: Result<Directive, ()>)
        ensures
            r is Ok <==> directive_of(word@) is Some,
            r matches Ok(d) ==> directive_of(word@) == Some(d),
    {
        proof {
            reveal_strlit("CacheSize");
            reveal_strlit("DocumentRoot");
            reveal_strlit("Listen");
            reveal_strlit("ServerName");
            reveal_strlit("ThreadPoolSize");
        }
        if bytes_eq(word, lit("CacheSize")) {
            Ok(Directive::CacheSize)
        } else if bytes_eq(word, lit("DocumentRoot")) {
            Ok(Directive::DocumentRoot)
        } else if bytes_eq(word, lit("Listen")) {
            Ok(Directive::ListenPort)
        } else if bytes_eq(word, lit("ServerName")) {
            Ok(Directive::ServerName)
        } else if bytes_eq(word, lit("ThreadPoolSize")) {
            Ok(Directive::ThreadPoolSize)
        } else {
            Err(())
        }
    }
}

/// A table of directives: one value per directive, in the order in which
/// the directives first appeared.
pub type Directives = FieldMap<Directive>;

/// A table of directives as a mathematical value.
pub type DirectivesView = Seq<(Directive, Seq<u8>)>;

/// The directives of one `<VirtualHost>` block.
#[derive(Debug)]
pub struct VirtualHost {
    pub directives: Directives,
}

impl View for VirtualHost {
    type V = DirectivesView;

    open spec fn view(&self) -> DirectivesView {
        self.directives@
    }
}

impl Clone for VirtualHost {
    fn clone(&self) -> (r: Self)
        ensures
            r@ == self@,
    {
        VirtualHost { directives: self.directives.clone() }
    }
}

/// A configuration: the top-level directives, and the virtual hosts in the
/// order of their blocks.
#[derive(Debug)]
pub struct ServerConfig {
    pub directives: Directives,
    pub virtual_hosts: Vec<VirtualHost>,
}

/// A configuration as a mathematical value.
pub struct ServerConfigView {
    pub directives: DirectivesView,
    pub virtual_hosts: Seq<DirectivesView>,
}

/// The virtual hosts of a list, each as a mathematical value.
pub open spec fn hosts_view(hosts: Seq<VirtualHost>) -> Seq<DirectivesView> {
    Seq::new(hosts.len(), |i: int| hosts[i]@)
}

impl View for ServerConfig {
    type V = ServerConfigView;

    open spec fn view(&self) -> ServerConfigView {
        ServerConfigView {
            directives: self.directives@,
            virtual_hosts: hosts_view(self.virtual_hosts@),
        }
    }
}

impl Clone for ServerConfig {
    fn clone(&self) -> (r: Self)
        ensures
            r@ == self@,
    {
        let mut virtual_hosts: Vec<VirtualHost> = Vec::new();
        let mut i: usize = 0;
        while i < self.virtual_hosts.len()
            invariant
                i <= self.virtual_hosts@.len(),
                virtual_hosts@.len() == i,
                forall|j: int| 0 <= j < i ==> (#[trigger] virtual_hosts@[j])@ == self.virtual_hosts@[j]@,
            decreases self.virtual_hosts.len() - i,
        {
            virtual_hosts.push(self.virtual_hosts[i].clone());
            i += 1;
        }
        assert(hosts_view(virtual_hosts@) =~= hosts_view(self.virtual_hosts@));
        ServerConfig { directives: self.directives.clone(), virtual_hosts }
    }
}

/// The line feed that ends a configuration line.
pub open spec fn line_feed() -> Seq<u8> {
    seq![10u8]
}

/// The space that separates a keyword from its value.
pub open spec fn space() -> Seq<u8> {
    seq![32u8]
}

/// A directive line at the front of `s`: the line up to the first line
/// feed, trimmed, is a keyword, a space and a value. Gives the directive
/// with its value, and what follows the line.
pub open spec fn spec_parse_directive(s: Seq<u8>) -> Option<((Directive, Seq<u8>), Seq<u8>)> {
    match split_once(s, line_feed()) {
        None => None,
        Some((line, rest)) => match split_once(trim(line), space()) {
            None => None,
            Some((word, value)) => match directive_of(word) {
                None => None,
                Some(d) => Some(((d, value), rest)),
            },
        },
    }
}

/// The line that opens or closes a block at the front of `s`: the opening
/// text, the block's name, and anything that ends in `>`. Gives what
/// follows the line.
pub open spec fn spec_block_line(opening: Seq<u8>, block_name: Seq<u8>, s: Seq<u8>) -> Option<
    Seq<u8>,
> {
    match split_once(s, line_feed()) {
        None => None,
        Some((line, rest)) => if (opening + block_name).is_prefix_of(line) && line.len() > (opening
            + block_name).len() && line.last() == 62 {
            Some(rest)
        } else {
            None
        },
    }
}

/// The line `<NAME ...>` that opens a block.
pub open spec fn spec_parse_open_block(block_name: Seq<u8>, s: Seq<u8>) -> Option<Seq<u8>> {
    spec_block_line(seq![60u8], block_name, s)
}

/// The line `</NAME ...>` that closes a block.
pub open spec fn spec_parse_close_block(block_name: Seq<u8>, s: Seq<u8>) -> Option<Seq<u8>> {
    spec_block_line(seq![60u8, 47u8], block_name, s)
}

/// A line that was read leaves less text.
pub proof fn lemma_line_shrinks(s: Seq<u8>)
    ensures
        split_once(s, line_feed()) matches Some((line, rest)) ==> rest.len() < s.len()
            && line.len() < s.len() && s == line + line_feed() + rest,
{
    lemma_first_match_sound(s, line_feed());
    if let Some(i) = first_match(s, line_feed()) {
        assert(s =~= s.take(i) + line_feed() + s.skip(i + 1));
    }
}

/// The directive lines at the front of `s`, stored into `table` one after
/// the other, and what follows them.
pub open spec fn spec_collect(s: Seq<u8>, table: DirectivesView) -> (DirectivesView, Seq<u8>)
    decreases s.len(),
    via spec_collect_decreases
{
    match spec_parse_directive(s) {
        Some(((d, value), rest)) => spec_collect(rest, upsert(table, d, value)),
        None => (table, s),
    }
}

#[via_fn]
proof fn spec_collect_decreases(s: Seq<u8>, table: DirectivesView) {
    lemma_line_shrinks(s);
}

/// A `<VirtualHost>` block at the front of `s`: the opening line, directive
/// lines, and the closing line. Gives the directives and what follows.
pub open spec fn spec_parse_virtual_host(s: Seq<u8>) -> Option<(DirectivesView, Seq<u8>)> {
    match spec_parse_open_block(ascii("VirtualHost"@), s) {
        None => None,
        Some(rest) => {
            let (table, rest) = spec_collect(rest, Seq::empty());
            match spec_parse_close_block(ascii("VirtualHost"@), rest) {
                None => None,
                Some(rest) => Some((table, rest)),
            }
        },
    }
}

/// A block that was read leaves less text.
pub proof fn lemma_collect_shrinks(s: Seq<u8>, table: DirectivesView)
    ensures
        spec_collect(s, table).1.len() <= s.len(),
    decreases s.len(),
{
    lemma_line_shrinks(s);
    if let Some(((d, value), rest)) = spec_parse_directive(s) {
        lemma_collect_shrinks(rest, upsert(table, d, value));
    }
}

/// A virtual host that was read leaves less text.
pub proof fn lemma_virtual_host_shrinks(s: Seq<u8>)
    ensures
        spec_parse_virtual_host(s) matches Some((_, rest)) ==> rest.len() < s.len(),
{
    lemma_line_shrinks(s);
    if let Some(rest) = spec_parse_open_block(ascii("VirtualHost"@), s) {
        lemma_collect_shrinks(rest, Seq::empty());
        lemma_line_shrinks(spec_collect(rest, Seq::empty()).1);
    }
}

/// The configuration that the text `s` adds to what has been read so far:
/// empty lines are skipped, a directive line is stored, a `<VirtualHost>`
/// block is appended; anything else makes the text no configuration.
pub open spec fn spec_config(s: Seq<u8>, directives: DirectivesView, hosts: Seq<DirectivesView>)
    -> Option<ServerConfigView>
    decreases s.len(),
    via spec_config_decreases
{
    if s.len() == 0 {
        Some(ServerConfigView { directives, virtual_hosts: hosts })
    } else if s[0] == 10 {
        spec_config(s.skip(1), directives, hosts)
    } else {
        match spec_parse_directive(s) {
            Some(((d, value), rest)) => spec_config(rest, upsert(directives, d, value), hosts),
            None => match spec_parse_virtual_host(s) {
                Some((host, rest)) => spec_config(rest, directives, hosts.push(host)),
                None => None,
            },
        }
    }
}

#[via_fn]
proof fn spec_config_decreases(s: Seq<u8>, directives: DirectivesView, hosts: Seq<DirectivesView>) {
    lemma_line_shrinks(s);
    lemma_virtual_host_shrinks(s);
}

/// The configuration that a text denotes, if it is one.
pub open spec fn spec_parse_server_config(s: Seq<u8>) -> Option<ServerConfigView> {
    spec_config(s, Seq::empty(), Seq::empty())
}

fn next_line(s: &[u8]) -> (r: Option<(&[u8], &[u8])>)
    ensures
        r is Some <==> split_once(s@, line_feed()) is Some,
        r matches Some((line, rest)) ==> split_once(s@, line_feed()) == Some((line@, rest@))
            && rest@.len() < s@.len(),
{
    let feed: [u8; 1] = [10];
    assert(feed@ =~= line_feed());
    proof {
        lemma_line_shrinks(s@);
    }
    cut(s, feed.as_slice())
}

/// Reads a directive line from the front of `s`.
pub fn parse_directive(s: &[u8]) -> (r: Result<((Directive, Vec<u8>), &[u8]), ()>)
    ensures
        r is Ok <==> spec_parse_directive(s@) is Some,
        r matches Ok(x) ==> spec_parse_directive(s@) == Some(((x.0.0, x.0.1@), x.1@)),
{
    let (line, rest) = match next_line(s) {
        Some(x) => x,
        None => {
            return Err(());
        },
    };
    let sep: [u8; 1] = [32];
    assert(sep@ =~= space());
    let (word, value) = match cut(trimmed(line), sep.as_slice()) {
        Some(x) => x,
        None => {
            return Err(());
        },
    };
    match Directive::from_str(word) {
        Ok(d) => Ok(((d, to_vec(value)), rest)),
        Err(_) => Err(()),
    }
}

/// Reads the line `<NAME ...>` that opens a block from the front of `s`.
pub fn parse_open_block<'a>(block_name: &[u8], s: &'a [u8]) -> (r: Result<((), &'a [u8]), ()>)
    ensures
        r is Ok <==> spec_parse_open_block(block_name@, s@) is Some,
        r matches Ok(x) ==> spec_parse_open_block(block_name@, s@) == Some(x.1@),
{
    let (line, rest) = match next_line(s) {
        Some(x) => x,
        None => {
            return Err(());
        },
    };
    proof {
        lemma_prefix_concat(seq![60u8], block_name@, line@);
        assert(seq![60u8].is_prefix_of(line@) <==> (line@.len() > 0 && line@[0] == 60)) by {
            if line@.len() > 0 && line@[0] == 60 {
                assert(seq![60u8] =~= line@.subrange(0, 1));
            }
            if seq![60u8].is_prefix_of(line@) {
                assert(seq![60u8][0] == line@[0]);
            }
        }
    }
    let after = match discard_char(60, line) {
        Ok(x) => x,
        Err(_) => {
            return Err(());
        },
    };
    let after = match discard_string(block_name, after) {
        Ok(x) => x,
        Err(_) => {
            return Err(());
        },
    };
    if after.len() > 0 && after[after.len() - 1] == 62 {
        Ok(((), rest))
    } else {
        Err(())
    }
}

/// Reads the line `</NAME ...>` that closes a block from the front of `s`.
pub fn parse_close_block<'a>(block_name: &[u8], s: &'a [u8]) -> (r: Result<((), &'a [u8]), ()>)
    ensures
        r is Ok <==> spec_parse_close_block(block_name@, s@) is Some,
        r matches Ok(x) ==> spec_parse_close_block(block_name@, s@) == Some(x.1@),
{
    let (line, rest) = match next_line(s) {
        Some(x) => x,
        None => {
            return Err(());
        },
    };
    proof {
        lemma_prefix_concat(seq![60u8, 47u8], block_name@, line@);
        assert(seq![60u8, 47u8].is_prefix_of(line@) <==> (line@.len() > 1 && line@[0] == 60
            && line@[1] == 47)) by {
            if line@.len() > 1 && line@[0] == 60 && line@[1] == 47 {
                assert(seq![60u8, 47u8] =~= line@.subrange(0, 2));
            }
            if seq![60u8, 47u8].is_prefix_of(line@) {
                assert(seq![60u8, 47u8][0] == line@[0]);
                assert(seq![60u8, 47u8][1] == line@[1]);
            }
        }
    }
    let after = match discard_char(60, line) {
        Ok(x) => x,
        Err(_) => {
            return Err(());
        },
    };
    let after = match discard_char(47, after) {
        Ok(x) => x,
        Err(_) => {
            return Err(());
        },
    };
    assert(after@ =~= line@.skip(2));
    let after = match discard_string(block_name, after) {
        Ok(x) => x,
        Err(_) => {
            return Err(());
        },
    };
    if after.len() > 0 && after[after.len() - 1] == 62 {
        Ok(((), rest))
    } else {
        Err(())
    }
}

/// Reads a `<VirtualHost>` block from the front of `s`.
pub fn parse_virtual_host(s: &[u8]) -> (r: Result<(VirtualHost, &[u8]), ()>)
    ensures
        r is Ok <==> spec_parse_virtual_host(s@) is Some,
        r matches Ok(x) ==> spec_parse_virtual_host(s@) == Some((x.0@, x.1@)),
{
    proof {
        reveal_strlit("VirtualHost");
    }
    let block_name = lit("VirtualHost");
    let (_, body) = match parse_open_block(block_name, s) {
        Ok(x) => x,
        Err(_) => {
            return Err(());
        },
    };
    let mut directives: Directives = FieldMap::new();
    let mut rest: &[u8] = body;
    loop
        invariant
            spec_collect(rest@, directives@) == spec_collect(body@, Seq::empty()),
        ensures
            spec_collect(body@, Seq::empty()) == (directives@, rest@),
        decreases rest@.len(),
    {
        proof {
            lemma_line_shrinks(rest@);
        }
        match parse_directive(rest) {
            Ok(((d, value), after)) => {
                directives.insert(d, value);
                rest = after;
            },
            Err(_) => {
                break ;
            },
        }
    }
    match parse_close_block(block_name, rest) {
        Ok((_, after)) => Ok((VirtualHost { directives }, after)),
        Err(_) => Err(()),
    }
}

/// Reads a configuration text. Fails where the text holds anything but
/// empty lines, directive lines and `<VirtualHost>` blocks.
pub fn parse_server_config(s: &[u8]) -> (r: Result<ServerConfig, Error>)
    ensures
        match spec_parse_server_config(s@) {
            Some(c) => r matches Ok(x) && x@ == c,
            None => r matches Err(e) && e@
                == "Could not parse file content into Apache-style configuration file"@,
        },
{
    let mut directives: Directives = FieldMap::new();
    let mut virtual_hosts: Vec<VirtualHost> = Vec::new();
    let mut rest: &[u8] = s;
    assert(hosts_view(virtual_hosts@) =~= Seq::empty());
    while rest.len() > 0
        invariant
            spec_config(rest@, directives@, hosts_view(virtual_hosts@)) == spec_parse_server_config(
                s@,
            ),
        decreases rest@.len(),
    {
        proof {
            lemma_line_shrinks(rest@);
            lemma_virtual_host_shrinks(rest@);
        }
        if rest[0] == 10 {
            rest = vstd::slice::slice_subrange(rest, 1, rest.len());
        } else {
            match parse_directive(rest) {
                Ok(((d, value), after)) => {
                    directives.insert(d, value);
                    rest = after;
                },
                Err(_) => match parse_virtual_host(rest) {
                    Ok((host, after)) => {
                        let ghost before = hosts_view(virtual_hosts@);
                        let ghost h = host@;
                        virtual_hosts.push(host);
                        assert(hosts_view(virtual_hosts@) =~= before.push(h));
                        rest = after;
                    },
                    Err(_) => {
                        return Err(
                            Error::of(
                                "Could not parse file content into Apache-style configuration file",
                            ),
                        );
                    },
                },
            }
        }
    }
    Ok(ServerConfig { directives, virtual_hosts })
}

impl ServerConfig {
    /// The port that the server listens on. A configuration without a
    /// `Listen` directive has none.
    pub fn listen_port(&self) -> (r: Result<&Vec<u8>, Error>)
        ensures
            match crate::fields::lookup(self@.directives, Directive::ListenPort) {
                Some(port) => r matches Ok(p) && p@ == port,
                None => r matches Err(e) && e@ == "Config did not include a ListenPort entry"@,
            },
    {
        match self.directives.get(Directive::ListenPort) {
            Some(port) => Ok(port),
            None => Err(Error::of("Config did not include a ListenPort entry")),
        }
    }
}

} // verus!

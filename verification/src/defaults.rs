//! The fixed names and values of the configuration file.

use crate::document::{
    DocumentView, first_malformed, Found, header_name, holds_key, lemma_last_holding,
    lemma_malformed_from, lemma_setting_line, line_kind, lookup, malformed_at, plain_key,
    plain_value, position, section_at, setting_line,
};
use crate::text::{
    ascii, lemma_trim_tight, LINE_FEED, literal_bytes, lower_seq, no_byte, single_lines,
};
use vstd::prelude::*;

verus! {

/// The section that holds the client's settings: `settings`.
pub open spec fn settings_section() -> Seq<u8> {
    ascii("settings"@)
}

/// The header line that opens that section: `[settings]`.
pub open spec fn settings_header() -> Seq<u8> {
    ascii("[settings]"@)
}

/// The key of the endpoint setting: `api_url`.
pub open spec fn url_key() -> Seq<u8> {
    ascii("api_url"@)
}

/// The key of the credential setting: `api_key`.
pub open spec fn credential_key() -> Seq<u8> {
    ascii("api_key"@)
}

/// The one endpoint that `api_url` may name.
pub open spec fn endpoint() -> Seq<u8> {
    ascii("https://hackatime.hackclub.com/api/hackatime/v1"@)
}

/// The key of the rate limit setting, written once when a file is created.
pub open spec fn rate_key() -> Seq<u8> {
    ascii("heartbeat_rate_limit_seconds"@)
}

/// The rate limit written into a new file: `30`.
pub open spec fn rate_value() -> Seq<u8> {
    ascii("30"@)
}

/// The lines of a newly created file. The credential is still empty.
pub open spec fn minimal_lines() -> Seq<Seq<u8>> {
    seq![
        settings_header(),
        setting_line(url_key(), endpoint()),
        setting_line(credential_key(), Seq::<u8>::empty()),
        setting_line(rate_key(), rate_value()),
    ]
}

/// The document that stands for a file that is yet to be written.
pub open spec fn minimal_document() -> DocumentView {
    DocumentView { lines: minimal_lines(), dirty: false, created: true }
}

/// The name of the settings section.
pub fn settings_section_bytes() -> (out: Vec<u8>)
    ensures
        out@ == settings_section(),
{
    proof {
        reveal_strlit("settings");
    }
    literal_bytes("settings")
}

/// The header line of the settings section.
pub fn settings_header_bytes() -> (out: Vec<u8>)
    ensures
        out@ == settings_header(),
{
    proof {
        reveal_strlit("[settings]");
    }
    literal_bytes("[settings]")
}

/// The key of the endpoint setting.
pub fn url_key_bytes() -> (out: Vec<u8>)
    ensures
        out@ == url_key(),
{
    proof {
        reveal_strlit("api_url");
    }
    literal_bytes("api_url")
}

/// The key of the credential setting.
pub fn credential_key_bytes() -> (out: Vec<u8>)
    ensures
        out@ == credential_key(),
{
    proof {
        reveal_strlit("api_key");
    }
    literal_bytes("api_key")
}

/// The endpoint.
pub fn endpoint_bytes() -> (out: Vec<u8>)
    ensures
        out@ == endpoint(),
{
    proof {
        reveal_strlit("https://hackatime.hackclub.com/api/hackatime/v1");
    }
    literal_bytes("https://hackatime.hackclub.com/api/hackatime/v1")
}

/// The key of the rate limit setting.
pub fn rate_key_bytes() -> (out: Vec<u8>)
    ensures
        out@ == rate_key(),
{
    proof {
        reveal_strlit("heartbeat_rate_limit_seconds");
    }
    literal_bytes("heartbeat_rate_limit_seconds")
}

/// The rate limit written into a new file.
pub fn rate_value_bytes() -> (out: Vec<u8>)
    ensures
        out@ == rate_value(),
{
    proof {
        reveal_strlit("30");
    }
    literal_bytes("30")
}

/// The fixed keys and values read back as written, and the header opens
/// the settings section.
pub proof fn lemma_defaults()
    ensures
        lower_seq(settings_section()) == settings_section(),
        line_kind(settings_header()) is Header,
        header_name(settings_header()) == settings_section(),
        plain_key(url_key()),
        plain_key(credential_key()),
        plain_key(rate_key()),
        plain_value(endpoint()),
        plain_value(rate_value()),
        url_key() != credential_key(),
        url_key() != rate_key(),
        credential_key() != rate_key(),
        no_byte(settings_section(), LINE_FEED),
        no_byte(settings_header(), LINE_FEED),
        no_byte(url_key(), LINE_FEED),
        no_byte(credential_key(), LINE_FEED),
        no_byte(rate_key(), LINE_FEED),
        no_byte(endpoint(), LINE_FEED),
        no_byte(rate_value(), LINE_FEED),
{
    reveal_strlit("settings");
    reveal_strlit("[settings]");
    reveal_strlit("api_url");
    reveal_strlit("api_key");
    reveal_strlit("https://hackatime.hackclub.com/api/hackatime/v1");
    reveal_strlit("heartbeat_rate_limit_seconds");
    reveal_strlit("30");
    lemma_trim_tight(settings_header());
}

/// A newly created document is well formed: its settings section holds
/// no malformed line, names the right endpoint and the rate limit, and has
/// a place for the credential, which is still empty.
pub proof fn minimal_document_is_sound()
    ensures
        first_malformed(minimal_lines(), settings_section()) is None,
        lookup(minimal_lines(), settings_section(), url_key()) == Found::Value(endpoint()),
        lookup(minimal_lines(), settings_section(), credential_key()) == Found::Value(
            Seq::<u8>::empty(),
        ),
        lookup(minimal_lines(), settings_section(), rate_key()) == Found::Value(rate_value()),
        position(minimal_lines(), settings_section(), credential_key()) == Some(2int),
        single_lines(minimal_lines()),
{
    let lines = minimal_lines();
    let section = settings_section();
    let empty = Seq::<u8>::empty();
    lemma_defaults();
    lemma_setting_line(url_key(), endpoint());
    lemma_setting_line(credential_key(), empty);
    lemma_setting_line(rate_key(), rate_value());
    assert(section_at(lines, 1) == Some(section));
    assert forall|j: int| 0 <= j < 4 implies !malformed_at(lines, section, j) by {}
    lemma_malformed_from(lines, section, 0);

    assert(holds_key(lines, section, credential_key(), 2));
    assert(holds_key(lines, section, url_key(), 1));
    lemma_last_holding(lines, section, rate_key(), 4);
    lemma_last_holding(lines, section, credential_key(), 4);
    lemma_last_holding(lines, section, url_key(), 4);

    assert forall|i: int| 0 <= i < lines.len() implies no_byte(#[trigger] lines[i], LINE_FEED) by {}
}

} // verus!

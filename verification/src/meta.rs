//! Sender metadata, drawn from the headers of the connection
//! counterpart: the trusted-proxy remote-IP policy, the user-agent,
//! GeoIP-derived place names, and the JSON shape peers see.

use vstd::prelude::*;

verus! {

use vstd::string::{StringSliceAdditionalSpecFns, StrSliceExecFns, StringExecFns};
use vstd::utf8::{valid_utf8, decode_utf8, encode_utf8};
use crate::error::HandlerErrorKind;
use crate::ip::{IpAddress, IpNetwork, in_networks, is_trusted_proxy, parsed_ip, ip_text,
    format_ip, parse_ip};
use crate::json::{json_string, append_json_string, append_literal};
use crate::lang::{preferred_languages, preferred_languages_spec, selected_element,
    get_preferred_language_element};
use crate::logging::ErrorLevel;
use crate::text::{split_bytes, split_vec, trim_spec, trim_vec};

/// Sender metadata. Immutable after session start; the user-agent is
/// kept for metadata only and never logged.
pub struct SenderData {
    pub ua: Option<String>,
    pub remote: Option<String>,
    pub city: Option<String>,
    pub region: Option<String>,
    pub country: Option<String>,
}

impl Default for SenderData {
    /// All fields unset.
    fn default() -> (r: SenderData)
        ensures
            r.ua is None,
            r.remote is None,
            r.city is None,
            r.region is None,
            r.country is None,
    {
        SenderData { ua: None, remote: None, city: None, region: None, country: None }
    }
}

impl SenderData {
    /// An exact copy.
    pub fn duplicate(&self) -> (r: SenderData)
        ensures
            r == *self,
    {
        SenderData {
            ua: clone_opt(&self.ua),
            remote: clone_opt(&self.remote),
            city: clone_opt(&self.city),
            region: clone_opt(&self.region),
            country: clone_opt(&self.country),
        }
    }

    /// The JSON object peers see: keys `ua`, `remote`, `city`, `region`,
    /// `country`, in that order, each present only when set.
    pub open spec fn json_bytes(self) -> Seq<u8> {
        "{".spec_bytes() + comma_joined(self.json_entries()) + "}".spec_bytes()
    }

    /// The object's entries, each as `"key":"value"` bytes.
    pub open spec fn json_entries(self) -> Seq<Seq<u8>> {
        opt_entry("\"ua\":".spec_bytes(), self.ua) + opt_entry(
            "\"remote\":".spec_bytes(),
            self.remote,
        ) + opt_entry("\"city\":".spec_bytes(), self.city) + opt_entry(
            "\"region\":".spec_bytes(),
            self.region,
        ) + opt_entry("\"country\":".spec_bytes(), self.country)
    }

    /// Render the metadata as JSON bytes.
    pub fn to_json(&self) -> (r: Vec<u8>)
        ensures
            r@ == self.json_bytes(),
    {
        let mut entries: Vec<Vec<u8>> = Vec::new();
        proof {
            assert(entries@.map_values(|e: Vec<u8>| e@) =~= Seq::<Seq<u8>>::empty());
        }
        push_opt_entry(&mut entries, "\"ua\":", &self.ua);
        proof {
            assert(entries@.map_values(|e: Vec<u8>| e@) =~= opt_entry("\"ua\":".spec_bytes(), self.ua));
        }
        push_opt_entry(&mut entries, "\"remote\":", &self.remote);
        proof {
            assert(entries@.map_values(|e: Vec<u8>| e@) =~= opt_entry("\"ua\":".spec_bytes(), self.ua)
                + opt_entry("\"remote\":".spec_bytes(), self.remote));
        }
        push_opt_entry(&mut entries, "\"city\":", &self.city);
        proof {
            assert(entries@.map_values(|e: Vec<u8>| e@) =~= opt_entry("\"ua\":".spec_bytes(), self.ua)
                + opt_entry("\"remote\":".spec_bytes(), self.remote) + opt_entry("\"city\":".spec_bytes(), self.city));
        }
        push_opt_entry(&mut entries, "\"region\":", &self.region);
        proof {
            assert(entries@.map_values(|e: Vec<u8>| e@) =~= opt_entry("\"ua\":".spec_bytes(), self.ua)
                + opt_entry("\"remote\":".spec_bytes(), self.remote) + opt_entry("\"city\":".spec_bytes(), self.city)
                + opt_entry("\"region\":".spec_bytes(), self.region));
        }
        push_opt_entry(&mut entries, "\"country\":", &self.country);
        proof {
            assert(entries@.map_values(|e: Vec<u8>| e@) =~= self.json_entries());
        }
        let ghost eview = entries@.map_values(|e: Vec<u8>| e@);
        let mut out: Vec<u8> = Vec::new();
        append_literal(&mut out, "{");
        let ghost head = "{".spec_bytes();
        let mut i: usize = 0;
        while i < entries.len()
            invariant
                i <= entries@.len(),
                eview == entries@.map_values(|e: Vec<u8>| e@),
                eview.len() == entries@.len(),
                head == "{".spec_bytes(),
                out@ == head + comma_joined(eview.take(i as int)),
            decreases entries@.len() - i,
        {
            proof {
                assert(eview.take(i + 1).drop_last() =~= eview.take(i as int));
                assert(eview.take(i + 1).last() == eview[i as int]);
                assert(eview[i as int] == entries@[i as int]@);
            }
            if i > 0 {
                append_literal(&mut out, ",");
            }
            let mut e = entries[i].clone();
            out.append(&mut e);
            proof {
                if i == 0 {
                    assert(eview.take(1).drop_last() =~= Seq::<Seq<u8>>::empty());
                    assert(out@ =~= head + comma_joined(eview.take(1)));
                } else {
                    assert(out@ =~= head + comma_joined(eview.take(i + 1)));
                }
            }
            i = i + 1;
        }
        proof {
            assert(eview.take(eview.len() as int) =~= eview);
        }
        append_literal(&mut out, "}");
        proof {
            assert(out@ =~= self.json_bytes());
        }
        out
    }

    /// The attributes a log line shows for this sender: the remote
    /// address and the place names, never the user-agent.
    pub open spec fn log_attribute_list(self) -> Seq<(Seq<char>, Seq<char>)> {
        opt_attr("remote_ip"@, self.remote) + opt_attr("remote_city"@, self.city) + opt_attr(
            "remote_region"@,
            self.region,
        ) + opt_attr("remote_country"@, self.country)
    }

    /// The attributes a log line shows for this sender.
    pub fn log_attributes(&self) -> (r: Vec<(String, String)>)
        ensures
            r@.map_values(|a: (String, String)| (a.0@, a.1@)) == self.log_attribute_list(),
    {
        let mut r: Vec<(String, String)> = Vec::new();
        proof {
            assert(r@.map_values(|a: (String, String)| (a.0@, a.1@)) =~= Seq::<(
                Seq<char>,
                Seq<char>,
            )>::empty());
        }
        push_opt_attr(&mut r, "remote_ip", &self.remote);
        proof {
            assert(r@.map_values(|a: (String, String)| (a.0@, a.1@)) =~= opt_attr(
                "remote_ip"@,
                self.remote,
            ));
        }
        push_opt_attr(&mut r, "remote_city", &self.city);
        proof {
            assert(r@.map_values(|a: (String, String)| (a.0@, a.1@)) =~= opt_attr(
                "remote_ip"@,
                self.remote,
            ) + opt_attr("remote_city"@, self.city));
        }
        push_opt_attr(&mut r, "remote_region", &self.region);
        proof {
            assert(r@.map_values(|a: (String, String)| (a.0@, a.1@)) =~= opt_attr(
                "remote_ip"@,
                self.remote,
            ) + opt_attr("remote_city"@, self.city) + opt_attr("remote_region"@, self.region));
        }
        push_opt_attr(&mut r, "remote_country", &self.country);
        proof {
            assert(r@.map_values(|a: (String, String)| (a.0@, a.1@))
                =~= self.log_attribute_list());
        }
        r
    }
}

/// A `"key":"value"` entry when the field is set, nothing when not.
pub open spec fn opt_entry(key: Seq<u8>, field: Option<String>) -> Seq<Seq<u8>> {
    match field {
        Some(s) => seq![key + json_string(encode_utf8(s@))],
        None => Seq::empty(),
    }
}

/// Entries joined with commas.
pub open spec fn comma_joined(entries: Seq<Seq<u8>>) -> Seq<u8>
    decreases entries.len(),
{
    if entries.len() == 0 {
        Seq::empty()
    } else if entries.len() == 1 {
        entries[0]
    } else {
        comma_joined(entries.drop_last()) + ",".spec_bytes() + entries.last()
    }
}

/// A `(key, value)` attribute when the field is set, nothing when not.
pub open spec fn opt_attr(key: Seq<char>, field: Option<String>) -> Seq<(Seq<char>, Seq<char>)> {
    match field {
        Some(s) => seq![(key, s@)],
        None => Seq::empty(),
    }
}

/// Append one object entry when the field is set.
fn push_opt_entry(entries: &mut Vec<Vec<u8>>, key: &str, field: &Option<String>)
    ensures
        final(entries)@.map_values(|e: Vec<u8>| e@) == old(entries)@.map_values(|e: Vec<u8>| e@)
            + opt_entry(key.spec_bytes(), *field),
{
    match field {
        Some(s) => {
            let mut e: Vec<u8> = Vec::new();
            append_literal(&mut e, key);
            let sb = s.as_str().as_bytes_vec();
            append_json_string(&mut e, &sb);
            proof {
                assert(e@ =~= key.spec_bytes() + json_string(encode_utf8(s@)));
            }
            let ghost before = entries@;
            entries.push(e);
            proof {
                assert(entries@.map_values(|x: Vec<u8>| x@) =~= before.map_values(
                    |x: Vec<u8>| x@,
                ) + opt_entry(key.spec_bytes(), *field));
            }
        },
        None => {
            proof {
                assert(entries@.map_values(|x: Vec<u8>| x@) =~= entries@.map_values(
                    |x: Vec<u8>| x@,
                ) + opt_entry(key.spec_bytes(), *field));
            }
        },
    }
}

/// Append one log attribute when the field is set.
fn push_opt_attr(r: &mut Vec<(String, String)>, key: &str, field: &Option<String>)
    ensures
        final(r)@.map_values(|a: (String, String)| (a.0@, a.1@)) == old(r)@.map_values(
            |a: (String, String)| (a.0@, a.1@),
        ) + opt_attr(key@, *field),
{
    match field {
        Some(s) => {
            let ghost before = r@;
            r.push((String::from_str(key), s.clone()));
            proof {
                assert(r@.map_values(|a: (String, String)| (a.0@, a.1@)) =~= before.map_values(
                    |a: (String, String)| (a.0@, a.1@),
                ) + opt_attr(key@, *field));
            }
        },
        None => {
            proof {
                assert(r@.map_values(|a: (String, String)| (a.0@, a.1@)) =~= r@.map_values(
                    |a: (String, String)| (a.0@, a.1@),
                ) + opt_attr(key@, *field));
            }
        },
    }
}

/// Copy an optional string.
fn clone_opt(o: &Option<String>) -> (r: Option<String>)
    ensures
        r == *o,
{
    match o {
        Some(s) => Some(s.clone()),
        None => None,
    }
}

/// Walking the forwarding chain from its right end: the first element
/// that is a valid address, not a loopback, and not a trusted proxy.
pub open spec fn xff_pick(parts: Seq<Seq<u8>>, nets: Seq<IpNetwork>) -> Option<IpAddress>
    decreases parts.len(),
{
    if parts.len() == 0 {
        None
    } else {
        let t = trim_spec(parts.last());
        if parsed_ip(t) matches Some(ip) && !ip.is_loopback_spec() && !in_networks(nets, ip) {
            parsed_ip(t)
        } else {
            xff_pick(parts.drop_last(), nets)
        }
    }
}

/// The remote-IP policy: no peer fails; an untrusted peer is taken
/// verbatim and the forwarding header ignored; a trusted peer defers to
/// the rightmost acceptable X-Forwarded-For element; a trusted peer
/// without one fails.
pub open spec fn remote_of(
    peer: Option<IpAddress>,
    xff: Option<Seq<u8>>,
    nets: Seq<IpNetwork>,
) -> Option<Seq<u8>> {
    match peer {
        None => None,
        Some(p) => if !in_networks(nets, p) {
            Some(ip_text(p))
        } else {
            match xff {
                None => None,
                Some(h) => match xff_pick(split_bytes(h, 44), nets) {
                    Some(ip) => Some(ip_text(ip)),
                    None => None,
                },
            }
        },
    }
}

/// Derive the client's effective remote address from the peer address
/// and the X-Forwarded-For header, under the trusted-proxy policy.
pub fn get_remote(
    peer: Option<IpAddress>,
    xff_header: Option<&Vec<u8>>,
    proxy_list: &Vec<IpNetwork>,
) -> (r: Result<String, HandlerErrorKind>)
    requires
        forall|i: int| 0 <= i < proxy_list@.len() ==> (#[trigger] proxy_list@[i]).wf(),
    ensures
        match r {
            Ok(s) => {
                let picked = remote_of(peer, xff_view(xff_header), proxy_list@);
                picked is Some && s@ == picked->0.map_values(|b: u8| b as char)
            },
            Err(e) => remote_of(peer, xff_view(xff_header), proxy_list@) is None
                && e is BadRemoteAddrError,
        },
{
    let peer_ip = match peer {
        None => {
            return Err(
                HandlerErrorKind::BadRemoteAddrError(String::from_str("Peer is unspecified")),
            );
        },
        Some(p) => p,
    };
    if !is_trusted_proxy(proxy_list, &peer_ip) {
        return Ok(format_ip(&peer_ip));
    }
    let header = match xff_header {
        None => {
            return Err(
                HandlerErrorKind::BadRemoteAddrError(
                    String::from_str("No X-Forwarded-For found for proxied connection"),
                ),
            );
        },
        Some(h) => h,
    };
    let parts = split_vec(header, 44);
    let ghost pviews = split_bytes(header@, 44);
    let mut idx = parts.len();
    proof {
        assert(pviews.take(pviews.len() as int) =~= pviews);
    }
    while idx > 0
        invariant
            idx <= parts@.len(),
            pviews == parts@.map_values(|p: Vec<u8>| p@),
            pviews.len() == parts@.len(),
            forall|i: int| 0 <= i < proxy_list@.len() ==> (#[trigger] proxy_list@[i]).wf(),
            peer == Some(peer_ip),
            in_networks(proxy_list@, peer_ip),
            xff_view(xff_header) == Some(header@),
            pviews == split_bytes(header@, 44),
            xff_pick(pviews, proxy_list@) == xff_pick(pviews.take(idx as int), proxy_list@),
        decreases idx,
    {
        proof {
            assert(pviews.take(idx as int).last() == pviews[idx - 1]);
            assert(pviews[idx - 1] == parts@[idx - 1]@);
            assert(pviews.take(idx as int).drop_last() =~= pviews.take(idx - 1));
        }
        let t = trim_vec(&parts[idx - 1]);
        match parse_ip(&t) {
            Some(ip) => {
                if !ip.is_loopback() && !is_trusted_proxy(proxy_list, &ip) {
                    return Ok(format_ip(&ip));
                }
            },
            None => {},
        }
        idx = idx - 1;
    }
    proof {
        assert(pviews.take(0) =~= Seq::<Seq<u8>>::empty());
    }
    Err(HandlerErrorKind::BadRemoteAddrError(String::from_str("Only proxies specified")))
}

/// The forwarding header's bytes, if one was given.
pub open spec fn xff_view(h: Option<&Vec<u8>>) -> Option<Seq<u8>> {
    match h {
        Some(v) => Some(v@),
        None => None,
    }
}

/// An empty user-agent header counts as none.
pub fn normalize_ua(ua: Option<String>) -> (r: Option<String>)
    ensures
        match ua {
            Some(s) => if s@.len() > 0 {
                r == Some(s)
            } else {
                r is None
            },
            None => r is None,
        },
{
    match ua {
        Some(s) => {
            if s.as_str().is_empty() {
                None
            } else {
                Some(s)
            }
        },
        None => None,
    }
}

/// How a GeoIP lookup failure is classed.
#[derive(Clone, Copy, Debug, PartialEq, Eq, Structural)]
pub enum GeoIpErrorKind {
    /// The database file itself is invalid: fatal.
    InvalidDatabase,
    /// The database could not be read.
    Io,
    /// A mapping failure inside the reader.
    Mapping,
    /// The looked-up record could not be decoded.
    Decoding,
    /// No record for the address: the common, quiet case.
    AddressNotFound,
}

impl GeoIpErrorKind {
    /// The severity a failure of this kind is logged at.
    pub fn severity(&self) -> (r: ErrorLevel)
        ensures
            r == match *self {
                GeoIpErrorKind::InvalidDatabase => ErrorLevel::Critical,
                GeoIpErrorKind::Io => ErrorLevel::Error,
                GeoIpErrorKind::Mapping => ErrorLevel::Warn,
                GeoIpErrorKind::Decoding => ErrorLevel::Warn,
                GeoIpErrorKind::AddressNotFound => ErrorLevel::Debug,
            },
    {
        match self {
            GeoIpErrorKind::InvalidDatabase => ErrorLevel::Critical,
            GeoIpErrorKind::Io => ErrorLevel::Error,
            GeoIpErrorKind::Mapping => ErrorLevel::Warn,
            GeoIpErrorKind::Decoding => ErrorLevel::Warn,
            GeoIpErrorKind::AddressNotFound => ErrorLevel::Debug,
        }
    }

    /// Only an invalid database stops the process.
    pub fn is_fatal(&self) -> (r: bool)
        ensures
            r == (*self == GeoIpErrorKind::InvalidDatabase),
    {
        match self {
            GeoIpErrorKind::InvalidDatabase => true,
            _ => false,
        }
    }
}

/// Fill the place-name fields from localized name tables, using the
/// language preference list. A table that the lookup did not yield
/// leaves its field as it was; a present table replaces its field with
/// the preference's choice (or clears it when nothing matches).
pub fn apply_geo_names(
    sender: &mut SenderData,
    langs: &Vec<Vec<u8>>,
    city_names: Option<&Vec<(Vec<u8>, String)>>,
    country_names: Option<&Vec<(Vec<u8>, String)>>,
    region_names: Option<&Vec<(Vec<u8>, String)>>,
)
    ensures
        final(sender).ua == old(sender).ua,
        final(sender).remote == old(sender).remote,
        geo_field_ok(old(sender).city, final(sender).city, langs@, city_names),
        geo_field_ok(old(sender).country, final(sender).country, langs@, country_names),
        geo_field_ok(old(sender).region, final(sender).region, langs@, region_names),
{
    match city_names {
        Some(names) => {
            sender.city = get_preferred_language_element(langs, names);
        },
        None => {},
    }
    match country_names {
        Some(names) => {
            sender.country = get_preferred_language_element(langs, names);
        },
        None => {},
    }
    match region_names {
        Some(names) => {
            sender.region = get_preferred_language_element(langs, names);
        },
        None => {},
    }
}

/// What one place-name field holds after enrichment.
pub open spec fn geo_field_ok(
    before: Option<String>,
    after: Option<String>,
    langs: Seq<Vec<u8>>,
    names: Option<&Vec<(Vec<u8>, String)>>,
) -> bool {
    match names {
        None => after == before,
        Some(ns) => {
            let sel = selected_element(
                ns@.map_values(|e: (Vec<u8>, String)| (e.0@, e.1@)),
                langs.map_values(|t: Vec<u8>| t@),
            );
            match after {
                Some(v) => sel == Some(v@),
                None => sel is None,
            }
        },
    }
}

/// The region and city named by an `X-Client-Geo-Location` header:
/// `<region>,<city>`.
pub fn gcp_location(header: &Vec<u8>) -> (r: (Option<String>, Option<String>))
    ensures
        gcp_part_ok(r.0, split_bytes(header@, 44), 0),
        gcp_part_ok(r.1, split_bytes(header@, 44), 1),
{
    let parts = split_vec(header, 44);
    proof {
        assert(split_bytes(header@, 44).len() >= 1);
        assert(split_bytes(header@, 44)[0] == parts@.map_values(|p: Vec<u8>| p@)[0]);
        if parts@.len() >= 2 {
            assert(split_bytes(header@, 44)[1] == parts@.map_values(|p: Vec<u8>| p@)[1]);
        }
    }
    let region = utf8_to_string(parts[0].clone());
    let city = if parts.len() >= 2 {
        utf8_to_string(parts[1].clone())
    } else {
        None
    };
    (region, city)
}

/// One part of the location header, decoded when present and readable.
pub open spec fn gcp_part_ok(r: Option<String>, parts: Seq<Seq<u8>>, i: int) -> bool {
    if i < parts.len() && valid_utf8(parts[i]) {
        match r {
            Some(s) => s@ == decode_utf8(parts[i]),
            None => false,
        }
    } else {
        r is None
    }
}

/// Consult the location header only when GeoIP produced no city; it
/// then supplies both the region and the city.
pub fn apply_gcp_header(sender: &mut SenderData, header: Option<&Vec<u8>>)
    ensures
        final(sender).ua == old(sender).ua,
        final(sender).remote == old(sender).remote,
        final(sender).country == old(sender).country,
        old(sender).city is Some || header is None ==> *final(sender) == *old(sender),
        old(sender).city is None && header is Some ==> {
            &&& gcp_part_ok(final(sender).region, split_bytes(header->0@, 44), 0)
            &&& gcp_part_ok(final(sender).city, split_bytes(header->0@, 44), 1)
        },
{
    if sender.city.is_none() {
        match header {
            Some(h) => {
                let (region, city) = gcp_location(h);
                sender.region = region;
                sender.city = city;
            },
            None => {},
        }
    }
}

/// Build the sender metadata and the language preference list from the
/// request's plain parts: the peer address, the forwarding and
/// language headers, and the user-agent. Place names stay unset here;
/// they are filled by `apply_geo_names` and `apply_gcp_header` once a
/// lookup has run.
pub fn sender_from_headers(
    peer: Option<IpAddress>,
    xff_header: Option<&Vec<u8>>,
    accept_language: Option<&Vec<u8>>,
    ua: Option<String>,
    proxy_list: &Vec<IpNetwork>,
    default_lang: &Vec<u8>,
) -> (r: (SenderData, Vec<Vec<u8>>))
    requires
        forall|i: int| 0 <= i < proxy_list@.len() ==> (#[trigger] proxy_list@[i]).wf(),
    ensures
        ({
            let picked = remote_of(peer, xff_view(xff_header), proxy_list@);
            match r.0.remote {
                Some(s) => picked is Some && s@ == picked->0.map_values(|b: u8| b as char),
                None => picked is None,
            }
        }),
        match ua {
            Some(s) => if s@.len() > 0 {
                r.0.ua == Some(s)
            } else {
                r.0.ua is None
            },
            None => r.0.ua is None,
        },
        r.0.city is None,
        r.0.region is None,
        r.0.country is None,
        r.1@.map_values(|t: Vec<u8>| t@) == preferred_languages_spec(
            match accept_language {
                Some(h) => h@,
                None => default_lang@,
            },
            default_lang@,
        ),
{
    let mut sender = SenderData::default();
    sender.remote = match get_remote(peer, xff_header, proxy_list) {
        Ok(addr) => Some(addr),
        Err(_) => None,
    };
    let langs = match accept_language {
        Some(h) => preferred_languages(h, default_lang),
        None => preferred_languages(default_lang, default_lang),
    };
    sender.ua = normalize_ua(ua);
    (sender, langs)
}

/// Relies on String::from_utf8: valid UTF-8 bytes decode to their
/// characters; anything else is rejected.
#[verifier::external_body]
fn utf8_to_string(v: Vec<u8>) -> (r: Option<String>)
    ensures
        match r {
            Some(s) => valid_utf8(v@) && s@ == decode_utf8(v@),
            None => !valid_utf8(v@),
        },
{
    String::from_utf8(v).ok()
}

} // verus!

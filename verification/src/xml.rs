//! Serialization of the DIDL-Lite listing, the SOAP envelope and the SOAP
//! fault, with XML text escaping.

use vstd::prelude::*;

use crate::strutil::{dec_str, usize_to_string};

verus! {

/// The XML entity replacement for one character; most characters stand for
/// themselves.
pub open spec fn escaped_char(c: char) -> Seq<char> {
    if c == '&' {
        "&amp;"@
    } else if c == '<' {
        "&lt;"@
    } else if c == '>' {
        "&gt;"@
    } else if c == '"' {
        "&quot;"@
    } else if c == '\'' {
        "&apos;"@
    } else {
        seq![c]
    }
}

/// The XML-escaped form of a character sequence.
pub open spec fn xml_escaped(s: Seq<char>) -> Seq<char>
    decreases s.len(),
{
    if s.len() == 0 {
        Seq::empty()
    } else {
        escaped_char(s[0]) + xml_escaped(s.skip(1))
    }
}

/// Escape a string for use as XML text or attribute content.
pub fn xml_escape(s: &str) -> (r: String)
    ensures
        r@ == xml_escaped(s@),
{
    let len = s.unicode_len();
    let mut out = String::new();
    let mut i: usize = 0;
    proof {
        assert(s@.skip(0) =~= s@);
    }
    while i < len
        invariant
            i <= len,
            len == s@.len(),
            xml_escaped(s@) == out@ + xml_escaped(s@.skip(i as int)),
        decreases len - i,
    {
        let ghost before = out@;
        proof {
            assert(s@.skip(i as int)[0] == s@[i as int]);
            assert(s@.skip(i as int).skip(1) =~= s@.skip(i as int + 1));
        }
        let c = s.get_char(i);
        if c == '&' {
            out.append("&amp;");
        } else if c == '<' {
            out.append("&lt;");
        } else if c == '>' {
            out.append("&gt;");
        } else if c == '"' {
            out.append("&quot;");
        } else if c == '\'' {
            out.append("&apos;");
        } else {
            let one = crate::strutil::char_to_string(c);
            out.append(one.as_str());
        }
        proof {
            assert(out@ == before + escaped_char(s@[i as int]));
            assert(before + (escaped_char(s@[i as int]) + xml_escaped(s@.skip(i as int + 1)))
                =~= out@ + xml_escaped(s@.skip(i as int + 1)));
        }
        i = i + 1;
    }
    proof {
        assert(xml_escaped(s@.skip(i as int)) =~= Seq::<char>::empty());
        assert(out@ + xml_escaped(s@.skip(i as int)) =~= out@);
    }
    out
}

/// One playable resource of an item: how to fetch it and what it is.
#[derive(Debug)]
pub struct MediaResource {
    pub protocol_info: String,
    pub uri: String,
}

/// A directory child in a browse listing.
#[derive(Debug)]
pub struct Container {
    pub id: String,
    pub parent_id: String,
    pub title: String,
    pub restricted: bool,
    pub child_count: usize,
    pub class: String,
}

/// A playable child in a browse listing.
#[derive(Debug)]
pub struct Item {
    pub id: String,
    pub parent_id: String,
    pub title: String,
    pub restricted: bool,
    pub class: String,
    pub res: Vec<MediaResource>,
}

/// The XML text of a boolean attribute value.
pub open spec fn bool_xml(b: bool) -> Seq<char> {
    if b {
        "true"@
    } else {
        "false"@
    }
}

/// The XML form of a resource element with the given field texts.
pub open spec fn res_xml_v(protocol_info: Seq<char>, uri: Seq<char>) -> Seq<char> {
    "<res protocolInfo=\""@ + xml_escaped(protocol_info) + "\">"@ + xml_escaped(uri) + "</res>"@
}

/// The XML form of one resource element.
pub open spec fn res_xml(r: MediaResource) -> Seq<char> {
    res_xml_v(r.protocol_info@, r.uri@)
}

/// The XML form of a resource list, in order.
pub open spec fn res_list_xml(rs: Seq<MediaResource>) -> Seq<char>
    decreases rs.len(),
{
    if rs.len() == 0 {
        Seq::empty()
    } else {
        res_xml(rs[0]) + res_list_xml(rs.skip(1))
    }
}

/// The XML form of a container element with the given field texts.
pub open spec fn container_xml_v(
    id: Seq<char>,
    parent_id: Seq<char>,
    title: Seq<char>,
    restricted: bool,
    child_count: nat,
    class: Seq<char>,
) -> Seq<char> {
    "<container id=\""@ + xml_escaped(id) + "\" parentID=\""@ + xml_escaped(parent_id)
        + "\" restricted=\""@ + bool_xml(restricted) + "\" childCount=\""@ + dec_str(child_count)
        + "\"><dc:title>"@ + xml_escaped(title) + "</dc:title><upnp:class>"@ + xml_escaped(class)
        + "</upnp:class></container>"@
}

/// The XML form of one container element.
pub open spec fn container_xml(c: Container) -> Seq<char> {
    container_xml_v(c.id@, c.parent_id@, c.title@, c.restricted, c.child_count as nat, c.class@)
}

/// The XML form of an item element with the given field texts and resource
/// block.
pub open spec fn item_xml_v(
    id: Seq<char>,
    parent_id: Seq<char>,
    title: Seq<char>,
    restricted: bool,
    class: Seq<char>,
    res_block: Seq<char>,
) -> Seq<char> {
    "<item id=\""@ + xml_escaped(id) + "\" parentID=\""@ + xml_escaped(parent_id)
        + "\" restricted=\""@ + bool_xml(restricted) + "\"><dc:title>"@ + xml_escaped(title)
        + "</dc:title><upnp:class>"@ + xml_escaped(class) + "</upnp:class>"@ + res_block
        + "</item>"@
}

/// The XML form of one item element.
pub open spec fn item_xml(it: Item) -> Seq<char> {
    item_xml_v(it.id@, it.parent_id@, it.title@, it.restricted, it.class@, res_list_xml(it.res@))
}

/// The XML form of a container list, in order.
pub open spec fn container_list_xml(cs: Seq<Container>) -> Seq<char>
    decreases cs.len(),
{
    if cs.len() == 0 {
        Seq::empty()
    } else {
        container_xml(cs[0]) + container_list_xml(cs.skip(1))
    }
}

/// The XML form of an item list, in order.
pub open spec fn item_list_xml(its: Seq<Item>) -> Seq<char>
    decreases its.len(),
{
    if its.len() == 0 {
        Seq::empty()
    } else {
        item_xml(its[0]) + item_list_xml(its.skip(1))
    }
}

/// The DIDL-Lite document around already-rendered container and item
/// blocks: three namespace declarations, the containers, then the items.
pub open spec fn didl_xml_v(containers_block: Seq<char>, items_block: Seq<char>) -> Seq<char> {
    "<DIDL-Lite xmlns=\"urn:schemas-upnp-org:metadata-1-0/DIDL-Lite/\" xmlns:dc=\"http://purl.org/dc/elements/1.1/\" xmlns:upnp=\"urn:schemas-upnp-org:metadata-1-0/upnp/\">"@
        + containers_block + items_block + "</DIDL-Lite>"@
}

/// The DIDL-Lite document: the containers in enumeration order, then the
/// items in enumeration order.
pub open spec fn didl_xml(cs: Seq<Container>, its: Seq<Item>) -> Seq<char> {
    didl_xml_v(container_list_xml(cs), item_list_xml(its))
}

/// The BrowseResponse element: the DIDL document carried as escaped text,
/// then the three count fields.
pub open spec fn browse_response_xml(didl: Seq<char>, nr: nat, tm: nat, uid: nat) -> Seq<char> {
    "<u:BrowseResponse xmlns:u=\"urn:schemas-upnp-org:service:ContentDirectory:1\"><Result>"@
        + xml_escaped(didl) + "</Result><NumberReturned>"@ + dec_str(nr)
        + "</NumberReturned><TotalMatches>"@ + dec_str(tm) + "</TotalMatches><UpdateID>"@ + dec_str(
        uid,
    ) + "</UpdateID></u:BrowseResponse>"@
}

/// A SOAP body wrapped in the envelope the protocol expects.
pub open spec fn envelope_xml(body: Seq<char>) -> Seq<char> {
    "<?xml version=\"1.0\" encoding=\"utf-8\"?><s:Envelope xmlns:s=\"http://schemas.xmlsoap.org/soap/envelope/\" s:encodingStyle=\"http://schemas.xmlsoap.org/soap/encoding/\"><s:Body>"@
        + body + "</s:Body></s:Envelope>"@
}

/// A SOAP fault body: a fixed client fault code and the fault string.
pub open spec fn fault_xml(msg: Seq<char>) -> Seq<char> {
    "<s:Fault><faultcode>SOAP-ENV:Client</faultcode><faultstring>"@ + xml_escaped(msg)
        + "</faultstring></s:Fault>"@
}

/// Render one resource element.
pub fn render_res(r: &MediaResource) -> (out: String)
    ensures
        out@ == res_xml(*r),
{
    let mut s = "<res protocolInfo=\"".to_owned();
    s.append(xml_escape(r.protocol_info.as_str()).as_str());
    s.append("\">");
    s.append(xml_escape(r.uri.as_str()).as_str());
    s.append("</res>");
    proof {
        assert(s@ =~= res_xml(*r));
    }
    s
}

/// Render one container element.
pub fn render_container(c: &Container) -> (out: String)
    ensures
        out@ == container_xml(*c),
{
    let mut s = "<container id=\"".to_owned();
    s.append(xml_escape(c.id.as_str()).as_str());
    s.append("\" parentID=\"");
    s.append(xml_escape(c.parent_id.as_str()).as_str());
    s.append("\" restricted=\"");
    s.append(if c.restricted {
        "true"
    } else {
        "false"
    });
    s.append("\" childCount=\"");
    s.append(usize_to_string(c.child_count).as_str());
    s.append("\"><dc:title>");
    s.append(xml_escape(c.title.as_str()).as_str());
    s.append("</dc:title><upnp:class>");
    s.append(xml_escape(c.class.as_str()).as_str());
    s.append("</upnp:class></container>");
    proof {
        assert(s@ =~= container_xml(*c));
    }
    s
}

/// Render one item element with its resources.
pub fn render_item(it: &Item) -> (out: String)
    ensures
        out@ == item_xml(*it),
{
    let mut s = "<item id=\"".to_owned();
    s.append(xml_escape(it.id.as_str()).as_str());
    s.append("\" parentID=\"");
    s.append(xml_escape(it.parent_id.as_str()).as_str());
    s.append("\" restricted=\"");
    s.append(if it.restricted {
        "true"
    } else {
        "false"
    });
    s.append("\"><dc:title>");
    s.append(xml_escape(it.title.as_str()).as_str());
    s.append("</dc:title><upnp:class>");
    s.append(xml_escape(it.class.as_str()).as_str());
    s.append("</upnp:class>");
    let ghost head = s@;
    let mut k: usize = 0;
    proof {
        assert(it.res@.skip(0) =~= it.res@);
    }
    while k < it.res.len()
        invariant
            k <= it.res@.len(),
            head + res_list_xml(it.res@) == s@ + res_list_xml(it.res@.skip(k as int)),
        decreases it.res@.len() - k,
    {
        let ghost before = s@;
        proof {
            assert(it.res@.skip(k as int)[0] == it.res@[k as int]);
            assert(it.res@.skip(k as int).skip(1) =~= it.res@.skip(k as int + 1));
        }
        s.append(render_res(&it.res[k]).as_str());
        proof {
            assert(before + (res_xml(it.res@[k as int]) + res_list_xml(it.res@.skip(k as int + 1)))
                =~= s@ + res_list_xml(it.res@.skip(k as int + 1)));
        }
        k = k + 1;
    }
    proof {
        assert(res_list_xml(it.res@.skip(k as int)) =~= Seq::<char>::empty());
        assert(s@ + res_list_xml(it.res@.skip(k as int)) =~= s@);
    }
    s.append("</item>");
    proof {
        assert(s@ =~= item_xml(*it));
    }
    s
}

/// Render the DIDL-Lite document for a browse listing.
pub fn render_didl(cs: &Vec<Container>, its: &Vec<Item>) -> (out: String)
    ensures
        out@ == didl_xml(cs@, its@),
{
    let mut s =
        "<DIDL-Lite xmlns=\"urn:schemas-upnp-org:metadata-1-0/DIDL-Lite/\" xmlns:dc=\"http://purl.org/dc/elements/1.1/\" xmlns:upnp=\"urn:schemas-upnp-org:metadata-1-0/upnp/\">".to_owned();
    let ghost head = s@;
    let mut k: usize = 0;
    proof {
        assert(cs@.skip(0) =~= cs@);
    }
    while k < cs.len()
        invariant
            k <= cs@.len(),
            head + container_list_xml(cs@) == s@ + container_list_xml(cs@.skip(k as int)),
        decreases cs@.len() - k,
    {
        let ghost before = s@;
        proof {
            assert(cs@.skip(k as int)[0] == cs@[k as int]);
            assert(cs@.skip(k as int).skip(1) =~= cs@.skip(k as int + 1));
        }
        s.append(render_container(&cs[k]).as_str());
        proof {
            assert(before + (container_xml(cs@[k as int]) + container_list_xml(
                cs@.skip(k as int + 1),
            )) =~= s@ + container_list_xml(cs@.skip(k as int + 1)));
        }
        k = k + 1;
    }
    proof {
        assert(container_list_xml(cs@.skip(k as int)) =~= Seq::<char>::empty());
        assert(s@ =~= head + container_list_xml(cs@));
    }
    let ghost mid = s@;
    let mut j: usize = 0;
    proof {
        assert(its@.skip(0) =~= its@);
    }
    while j < its.len()
        invariant
            j <= its@.len(),
            mid + item_list_xml(its@) == s@ + item_list_xml(its@.skip(j as int)),
        decreases its@.len() - j,
    {
        let ghost before = s@;
        proof {
            assert(its@.skip(j as int)[0] == its@[j as int]);
            assert(its@.skip(j as int).skip(1) =~= its@.skip(j as int + 1));
        }
        s.append(render_item(&its[j]).as_str());
        proof {
            assert(before + (item_xml(its@[j as int]) + item_list_xml(its@.skip(j as int + 1)))
                =~= s@ + item_list_xml(its@.skip(j as int + 1)));
        }
        j = j + 1;
    }
    proof {
        assert(item_list_xml(its@.skip(j as int)) =~= Seq::<char>::empty());
        assert(s@ =~= mid + item_list_xml(its@));
    }
    s.append("</DIDL-Lite>");
    proof {
        assert(s@ =~= didl_xml(cs@, its@));
    }
    s
}

/// Render the BrowseResponse element around a DIDL document.
pub fn render_browse_response(didl: &str, nr: usize, tm: usize, uid: usize) -> (out: String)
    ensures
        out@ == browse_response_xml(didl@, nr as nat, tm as nat, uid as nat),
{
    let mut s =
        "<u:BrowseResponse xmlns:u=\"urn:schemas-upnp-org:service:ContentDirectory:1\"><Result>".to_owned();
    s.append(xml_escape(didl).as_str());
    s.append("</Result><NumberReturned>");
    s.append(usize_to_string(nr).as_str());
    s.append("</NumberReturned><TotalMatches>");
    s.append(usize_to_string(tm).as_str());
    s.append("</TotalMatches><UpdateID>");
    s.append(usize_to_string(uid).as_str());
    s.append("</UpdateID></u:BrowseResponse>");
    proof {
        assert(s@ =~= browse_response_xml(didl@, nr as nat, tm as nat, uid as nat));
    }
    s
}

/// Wrap a SOAP body in the envelope.
pub fn render_envelope(body: &str) -> (out: String)
    ensures
        out@ == envelope_xml(body@),
{
    let mut s =
        "<?xml version=\"1.0\" encoding=\"utf-8\"?><s:Envelope xmlns:s=\"http://schemas.xmlsoap.org/soap/envelope/\" s:encodingStyle=\"http://schemas.xmlsoap.org/soap/encoding/\"><s:Body>".to_owned();
    s.append(body);
    s.append("</s:Body></s:Envelope>");
    proof {
        assert(s@ =~= envelope_xml(body@));
    }
    s
}

/// Render a SOAP fault body for a fault string.
pub fn render_fault(msg: &str) -> (out: String)
    ensures
        out@ == fault_xml(msg@),
{
    let mut s = "<s:Fault><faultcode>SOAP-ENV:Client</faultcode><faultstring>".to_owned();
    s.append(xml_escape(msg).as_str());
    s.append("</faultstring></s:Fault>");
    proof {
        assert(s@ =~= fault_xml(msg@));
    }
    s
}

} // verus!

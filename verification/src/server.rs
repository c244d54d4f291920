//! The protocol engine: routing, SOAP dispatch, the ContentDirectory
//! Browse handler, and the media-stream decision.

use vstd::prelude::*;

use crate::error::MediaError;
use crate::request::{decoded_path_spec, first_segment, seg_rest, Request};
use crate::soap::{browse_request_spec, parse_browse_request, parse_fail_msg};
use crate::strutil::{starts_with, str_eq, str_starts_with, str_trim_quotes, trim_quotes};
use crate::tree::{children_spec, lookup_spec, ContentEntry, ContentTree};
use crate::xml::{
    container_xml, container_xml_v, didl_xml_v, envelope_xml, fault_xml, item_xml, item_xml_v,
    render_browse_response, render_didl, render_envelope, render_fault, res_xml_v, Container,
    Item, MediaResource,
};

verus! {

/// The static connection-manager service description.
pub const CONNECTION_XML: &'static str = "<?xml version=\"1.0\"?><scpd xmlns=\"urn:schemas-upnp-org:service-1-0\"><specVersion><major>1</major><minor>0</minor></specVersion><actionList/><serviceStateTable/></scpd>";

/// The static content-directory service description.
pub const CONTENT_XML: &'static str = "<?xml version=\"1.0\"?><scpd xmlns=\"urn:schemas-upnp-org:service-1-0\"><specVersion><major>1</major><minor>0</minor></specVersion><actionList><action><name>Browse</name></action></actionList><serviceStateTable/></scpd>";

/// The device description up to the friendly name.
pub const ROOT_XML_PRE: &'static str = "<?xml version=\"1.0\"?><root xmlns=\"urn:schemas-upnp-org:device-1-0\"><specVersion><major>1</major><minor>0</minor></specVersion><device><deviceType>urn:schemas-upnp-org:device:MediaServer:1</deviceType><friendlyName>";

/// The device description between the friendly name and the UUID.
pub const ROOT_XML_MID: &'static str = "</friendlyName><UDN>uuid:";

/// The device description after the UUID.
pub const ROOT_XML_POST: &'static str = "</UDN><serviceList><service><serviceType>urn:schemas-upnp-org:service:ContentDirectory:1</serviceType><serviceId>urn:upnp-org:serviceId:ContentDirectory</serviceId><SCPDURL>/content/desc.xml</SCPDURL><controlURL>/content/control</controlURL><eventSubURL>/content/events</eventSubURL></service><service><serviceType>urn:schemas-upnp-org:service:ConnectionManager:1</serviceType><serviceId>urn:upnp-org:serviceId:ConnectionManager</serviceId><SCPDURL>/connection/desc.xml</SCPDURL><controlURL>/connection/control</controlURL><eventSubURL>/connection/events</eventSubURL></service></serviceList></device></root>";

/// The action namespace every SOAP call must carry.
pub const SOAP_NS_PREFIX: &'static str = "urn:schemas-upnp-org:service:ContentDirectory:1#";

/// The protocol info attached to every item resource.
pub const PROTOCOL_INFO: &'static str = "http-get:*:video/x-matroska:*";

/// The device description templated with a UUID and a server name.
pub open spec fn root_xml_spec(uuid: Seq<char>, name: Seq<char>) -> Seq<char> {
    ROOT_XML_PRE@ + name + ROOT_XML_MID@ + uuid + ROOT_XML_POST@
}

/// A SOAP fault rendered as a complete response body.
pub open spec fn fault_page(msg: Seq<char>) -> Seq<char> {
    envelope_xml(fault_xml(msg))
}

/// The request method, as far as routing distinguishes it.
#[derive(PartialEq, Eq, Structural, Clone, Copy, Debug)]
pub enum HttpMethod {
    Get,
    Post,
    Other,
}

/// A complete response: a status code and a text body.
pub struct HttpResponse {
    pub status: u16,
    pub body: String,
}

/// The decision to stream the content entry with the given id.
#[derive(Debug)]
pub struct StreamPlan {
    pub id: String,
}

/// What the engine answers: a finished page, or an instruction to stream a
/// media entry's bytes as the response body.
pub enum Reply {
    Page(HttpResponse),
    Stream(StreamPlan),
}

/// The typed result of a Browse call, before serialization.
#[derive(Debug)]
pub struct BrowseResult {
    pub containers: Vec<Container>,
    pub items: Vec<Item>,
    pub number_returned: usize,
    pub total_matches: usize,
    pub update_id: usize,
}

/// The directory entries of a child list, in order.
pub open spec fn dirs_of(cs: Seq<ContentEntry>) -> Seq<ContentEntry>
    decreases cs.len(),
{
    if cs.len() == 0 {
        Seq::empty()
    } else if cs[0].is_dir {
        seq![cs[0]] + dirs_of(cs.skip(1))
    } else {
        dirs_of(cs.skip(1))
    }
}

/// The leaf entries of a child list, in order.
pub open spec fn files_of(cs: Seq<ContentEntry>) -> Seq<ContentEntry>
    decreases cs.len(),
{
    if cs.len() == 0 {
        Seq::empty()
    } else if !cs[0].is_dir {
        seq![cs[0]] + files_of(cs.skip(1))
    } else {
        files_of(cs.skip(1))
    }
}

/// The container built for a directory entry: its own fields, restricted,
/// and the real count of its children in the catalog.
pub open spec fn container_matches(
    entries: Seq<ContentEntry>,
    e: ContentEntry,
    c: Container,
) -> bool {
    c.id@ == e.id@ && c.parent_id@ == e.parent_id@ && c.title@ == e.title@ && c.restricted == true
        && c.child_count as nat == children_spec(entries, e.id@).len() && c.class@ == e.class@
}

/// The item built for a leaf entry: its own fields, restricted, and exactly
/// one resource whose uri points back at this server's video branch.
pub open spec fn item_matches(e: ContentEntry, uri: Seq<char>, it: Item) -> bool {
    it.id@ == e.id@ && it.parent_id@ == e.parent_id@ && it.title@ == e.title@ && it.restricted
        == true && it.class@ == e.class@ && it.res@.len() == 1 && it.res@[0].protocol_info@
        == PROTOCOL_INFO@ && it.res@[0].uri@ == uri + "/video/"@ + e.id@
}

/// The containers correspond one to one, in order, to the directory
/// entries.
pub open spec fn containers_match(
    entries: Seq<ContentEntry>,
    ds: Seq<ContentEntry>,
    cs: Seq<Container>,
) -> bool {
    cs.len() == ds.len() && forall|k: int|
        0 <= k < ds.len() ==> container_matches(entries, ds[k], cs[k])
}

/// The items correspond one to one, in order, to the leaf entries.
pub open spec fn items_match(uri: Seq<char>, fs: Seq<ContentEntry>, its: Seq<Item>) -> bool {
    its.len() == fs.len() && forall|k: int| 0 <= k < fs.len() ==> item_matches(fs[k], uri, its[k])
}

/// Everything a successful Browse promises about its typed result.
pub open spec fn browse_ok(
    entries: Seq<ContentEntry>,
    uri: Seq<char>,
    oid: Seq<char>,
    b: BrowseResult,
) -> bool {
    containers_match(entries, dirs_of(children_spec(entries, oid)), b.containers@) && items_match(
        uri,
        files_of(children_spec(entries, oid)),
        b.items@,
    ) && b.number_returned == children_spec(entries, oid).len() && b.total_matches == children_spec(
        entries,
        oid,
    ).len() && b.update_id == 1
}

/// The rendered container block of a browse listing, from the directory
/// entries themselves.
pub open spec fn containers_block(entries: Seq<ContentEntry>, ds: Seq<ContentEntry>) -> Seq<char>
    decreases ds.len(),
{
    if ds.len() == 0 {
        Seq::empty()
    } else {
        container_xml_v(
            ds[0].id@,
            ds[0].parent_id@,
            ds[0].title@,
            true,
            children_spec(entries, ds[0].id@).len(),
            ds[0].class@,
        ) + containers_block(entries, ds.skip(1))
    }
}

/// The rendered item block of a browse listing, from the leaf entries
/// themselves.
pub open spec fn items_block(fs: Seq<ContentEntry>, uri: Seq<char>) -> Seq<char>
    decreases fs.len(),
{
    if fs.len() == 0 {
        Seq::empty()
    } else {
        item_xml_v(
            fs[0].id@,
            fs[0].parent_id@,
            fs[0].title@,
            true,
            fs[0].class@,
            res_xml_v(PROTOCOL_INFO@, uri + "/video/"@ + fs[0].id@),
        ) + items_block(fs.skip(1), uri)
    }
}

/// The complete SOAP response body of a Browse call on `oid`: a fault page
/// for an unknown or non-directory id, else the enveloped BrowseResponse.
pub open spec fn browse_page_spec(
    entries: Seq<ContentEntry>,
    uri: Seq<char>,
    oid: Seq<char>,
) -> Seq<char> {
    match lookup_spec(entries, oid) {
        None => fault_page("Not found: "@ + oid),
        Some(e) => {
            if !e.is_dir {
                fault_page("Not a directory: "@ + oid)
            } else {
                let ch = children_spec(entries, oid);
                envelope_xml(
                    crate::xml::browse_response_xml(
                        didl_xml_v(
                            containers_block(entries, dirs_of(ch)),
                            items_block(files_of(ch), uri),
                        ),
                        ch.len(),
                        ch.len(),
                        1,
                    ),
                )
            }
        },
    }
}

/// The complete response body of the SOAP control endpoint, for any header
/// and body: always a well-formed envelope, a fault page on every failure.
pub open spec fn soap_page_spec(
    entries: Seq<ContentEntry>,
    uri: Seq<char>,
    h: Option<Seq<char>>,
    body: Seq<u8>,
) -> Seq<char> {
    match h {
        None => fault_page("No Soapaction header."@),
        Some(hdr) => {
            let t = trim_quotes(hdr);
            if !starts_with(t, SOAP_NS_PREFIX@) {
                fault_page("Unknown action namespace: \""@ + t + "\""@)
            } else {
                let action = t.skip(SOAP_NS_PREFIX@.len() as int);
                if action == "Browse"@ {
                    match browse_request_spec(body) {
                        None => fault_page(parse_fail_msg(body)),
                        Some(oid) => browse_page_spec(entries, uri, oid),
                    }
                } else {
                    fault_page("Unknown action \""@ + action + "\""@)
                }
            }
        },
    }
}

/// The view of an optional header value.
pub open spec fn opt_view(h: Option<String>) -> Option<Seq<char>> {
    match h {
        None => None,
        Some(s) => Some(s@),
    }
}

/// A 200 response with the given body.
pub fn respond_ok(body: String) -> (r: HttpResponse)
    ensures
        r.status == 200,
        r.body == body,
{
    HttpResponse { status: 200, body }
}

/// A SOAP body wrapped in the envelope, as a 200 response.
pub fn respond_soap(body_xml: &str) -> (r: HttpResponse)
    ensures
        r.status == 200,
        r.body@ == envelope_xml(body_xml@),
{
    HttpResponse { status: 200, body: render_envelope(body_xml) }
}

/// A SOAP fault for the given fault string, as a 200 response: the protocol
/// reports in-band failures as structured faults, never as HTTP errors.
pub fn respond_soap_fault(msg: &str) -> (r: HttpResponse)
    ensures
        r.status == 200,
        r.body@ == fault_page(msg@),
{
    let fault = render_fault(msg);
    respond_soap(fault.as_str())
}

/// A bare 404 response.
pub fn call_not_found() -> (r: HttpResponse)
    ensures
        r.status == 404,
        r.body@ == Seq::<char>::empty(),
{
    HttpResponse { status: 404, body: String::new() }
}

/// A bare 405 response.
pub fn call_method_not_allowed() -> (r: HttpResponse)
    ensures
        r.status == 405,
        r.body@ == Seq::<char>::empty(),
{
    HttpResponse { status: 405, body: String::new() }
}

/// What the server is built from.
pub struct ServerArgs {
    pub uri: String,
    pub name: String,
    pub uuid: String,
    pub tree: ContentTree,
}

/// The protocol engine: the advertised base URI, the rendered device
/// description, and the content tree.
pub struct Server {
    pub uri: String,
    pub root_xml: String,
    pub tree: ContentTree,
}

impl Server {
    /// Build the engine, rendering the device description from the
    /// configured UUID and server name.
    pub fn new(args: ServerArgs) -> (r: Server)
        ensures
            r.uri == args.uri,
            r.tree == args.tree,
            r.root_xml@ == root_xml_spec(args.uuid@, args.name@),
    {
        let mut root_xml = ROOT_XML_PRE.to_owned();
        root_xml.append(args.name.as_str());
        root_xml.append(ROOT_XML_MID);
        root_xml.append(args.uuid.as_str());
        root_xml.append(ROOT_XML_POST);
        proof {
            assert(root_xml@ =~= root_xml_spec(args.uuid@, args.name@));
        }
        Server { uri: args.uri, root_xml, tree: args.tree }
    }

    /// Resolve a Browse request: look the object up, enumerate its
    /// children, and partition them into containers and items, both in
    /// enumeration order, with real child and result counts.
    pub fn call_dlna_browse(&self, object_id: &str) -> (r: Result<BrowseResult, MediaError>)
        ensures
            match lookup_spec(self.tree.entries_spec(), object_id@) {
                None => r matches Err(MediaError::NotFound(p)) && p@ == object_id@,
                Some(e) => {
                    if !e.is_dir {
                        r matches Err(MediaError::NotADirectory(p)) && p@ == object_id@
                    } else {
                        r matches Ok(b) && browse_ok(
                            self.tree.entries_spec(),
                            self.uri@,
                            object_id@,
                            b,
                        )
                    }
                },
            },
    {
        let ghost entries = self.tree.entries_spec();
        let entry = match self.tree.lookup(object_id) {
            None => {
                return Err(MediaError::NotFound(object_id.to_owned()));
            },
            Some(e) => e,
        };
        if !entry.is_dir {
            return Err(MediaError::NotADirectory(object_id.to_owned()));
        }
        let children = self.tree.children(object_id);
        let ghost chv = children@;
        let mut containers: Vec<Container> = Vec::new();
        let mut items: Vec<Item> = Vec::new();
        let mut k: usize = 0;
        proof {
            assert(chv.take(0) =~= Seq::<ContentEntry>::empty());
        }
        while k < children.len()
            invariant
                k <= chv.len(),
                chv == children@,
                entries == self.tree.entries_spec(),
                containers_match(entries, dirs_of(chv.take(k as int)), containers@),
                items_match(self.uri@, files_of(chv.take(k as int)), items@),
            decreases chv.len() - k,
        {
            let e = &children[k];
            proof {
                assert(chv.take(k as int + 1) =~= chv.take(k as int).push(chv[k as int]));
                lemma_dirs_of_snoc(chv.take(k as int), chv[k as int]);
                lemma_files_of_snoc(chv.take(k as int), chv[k as int]);
            }
            if e.is_dir {
                let grandchildren = self.tree.children(e.id.as_str());
                let c = Container {
                    id: e.id.clone(),
                    parent_id: e.parent_id.clone(),
                    title: e.title.clone(),
                    restricted: true,
                    child_count: grandchildren.len(),
                    class: e.class.clone(),
                };
                let ghost dprev = dirs_of(chv.take(k as int));
                containers.push(c);
                proof {
                    let dnow = dirs_of(chv.take(k as int + 1));
                    assert(dnow == dprev.push(chv[k as int]));
                    assert forall|j: int| 0 <= j < dnow.len() implies container_matches(
                        entries,
                        dnow[j],
                        containers@[j],
                    ) by {
                        if j < dprev.len() {
                            assert(dnow[j] == dprev[j]);
                        }
                    }
                }
            } else {
                let mut res: Vec<MediaResource> = Vec::new();
                let mut uri = self.uri.clone();
                uri.append("/video/");
                uri.append(e.id.as_str());
                res.push(
                    MediaResource { protocol_info: PROTOCOL_INFO.to_owned(), uri },
                );
                let it = Item {
                    id: e.id.clone(),
                    parent_id: e.parent_id.clone(),
                    title: e.title.clone(),
                    restricted: true,
                    class: e.class.clone(),
                    res,
                };
                let ghost fprev = files_of(chv.take(k as int));
                items.push(it);
                proof {
                    let fnow = files_of(chv.take(k as int + 1));
                    assert(fnow == fprev.push(chv[k as int]));
                    assert forall|j: int| 0 <= j < fnow.len() implies item_matches(
                        fnow[j],
                        self.uri@,
                        items@[j],
                    ) by {
                        if j < fprev.len() {
                            assert(fnow[j] == fprev[j]);
                        }
                    }
                }
            }
            k = k + 1;
        }
        proof {
            assert(chv.take(k as int) =~= chv);
        }
        let n = children.len();
        Ok(
            BrowseResult {
                containers,
                items,
                number_returned: n,
                total_matches: n,
                update_id: 1,
            },
        )
    }
}

/// A path with one leading slash consumed, as `Request::new` leaves it.
pub open spec fn normalize_path(p: Seq<char>) -> Seq<char> {
    if p.len() > 0 && p[0] == '/' {
        p.skip(1)
    } else {
        p
    }
}

/// `r` is a finished page with this status and body.
pub open spec fn is_page(r: Reply, status: int, body: Seq<char>) -> bool {
    match r {
        Reply::Page(p) => p.status == status && p.body@ == body,
        Reply::Stream(_) => false,
    }
}

/// The router's whole contract: what the engine answers for every method,
/// consumed path, action header and body. Static branches answer their
/// documents, `root.xml` insists on GET, the SOAP branch always answers 200,
/// the video branch streams exactly the resolved leaf entry, everything
/// else is 404, and failures on the video branch are an internal error
/// page.
pub open spec fn route_ensures(
    srv: Server,
    method: HttpMethod,
    p0: Seq<char>,
    h: Option<Seq<char>>,
    body: Seq<u8>,
    r: Reply,
) -> bool {
    let s1 = first_segment(p0);
    let r1 = seg_rest(p0);
    if s1 == "root.xml"@ {
        if method == HttpMethod::Get {
            is_page(r, 200, srv.root_xml@)
        } else {
            is_page(r, 405, Seq::empty())
        }
    } else if s1 == "connection"@ {
        if first_segment(r1) == "desc.xml"@ {
            is_page(r, 200, CONNECTION_XML@)
        } else {
            is_page(r, 404, Seq::empty())
        }
    } else if s1 == "content"@ {
        if first_segment(r1) == "control"@ {
            is_page(r, 200, soap_page_spec(srv.tree.entries_spec(), srv.uri@, h, body))
        } else if first_segment(r1) == "desc.xml"@ {
            is_page(r, 200, CONTENT_XML@)
        } else {
            is_page(r, 404, Seq::empty())
        }
    } else if s1 == "video"@ {
        match decoded_path_spec(r1) {
            Some(p) => match lookup_spec(srv.tree.entries_spec(), p) {
                Some(e) => {
                    if e.is_dir {
                        is_page(r, 500, "Internal Error"@)
                    } else {
                        r matches Reply::Stream(plan) && plan.id@ == e.id@
                    }
                },
                None => is_page(r, 500, "Internal Error"@),
            },
            None => is_page(r, 500, "Internal Error"@),
        }
    } else {
        is_page(r, 404, Seq::empty())
    }
}

impl Server {
    /// Decide a media request: resolve the percent-decoded remaining path
    /// and stream the entry only when it is a leaf; a directory is a
    /// NotAFile error, never an empty success stream.
    pub fn call_video(&self, req: &Request) -> (r: Result<StreamPlan, MediaError>)
        requires
            req.wf(),
        ensures
            match decoded_path_spec(req.remaining()) {
                None => r matches Err(MediaError::Message(m)) && m@
                    == "Error percent-decoding path to utf8."@,
                Some(p) => match lookup_spec(self.tree.entries_spec(), p) {
                    None => r matches Err(MediaError::NotFound(q)) && q@ == p,
                    Some(e) => {
                        if e.is_dir {
                            r matches Err(MediaError::NotAFile(q)) && q@ == p
                        } else {
                            r matches Ok(plan) && plan.id@ == e.id@
                        }
                    },
                },
            },
    {
        let path = match req.decoded_path() {
            Ok(p) => p,
            Err(e) => {
                return Err(e);
            },
        };
        match self.tree.lookup(path.as_str()) {
            None => Err(MediaError::NotFound(path)),
            Some(e) => {
                if e.is_dir {
                    Err(MediaError::NotAFile(path))
                } else {
                    Ok(StreamPlan { id: e.id.clone() })
                }
            },
        }
    }

    /// Dispatch a SOAP call: validate the action header, decode the Browse
    /// envelope, run the browse, and render the outcome. Every failure is a
    /// SOAP fault carried by a 200 response; the dispatcher itself never
    /// answers an HTTP error status.
    pub fn call_content_soap(&self, soapaction: &Option<String>, body: Vec<u8>) -> (r:
        HttpResponse)
        ensures
            r.status == 200,
            r.body@ == soap_page_spec(
                self.tree.entries_spec(),
                self.uri@,
                opt_view(*soapaction),
                body@,
            ),
    {
        let h = match soapaction {
            None => {
                return respond_soap_fault("No Soapaction header.");
            },
            Some(h) => h,
        };
        let trimmed = str_trim_quotes(h.as_str());
        let ghost t = trim_quotes(h@);
        if !str_starts_with(trimmed.as_str(), SOAP_NS_PREFIX) {
            let mut msg = "Unknown action namespace: \"".to_owned();
            msg.append(trimmed.as_str());
            msg.append("\"");
            proof {
                assert(msg@ =~= "Unknown action namespace: \""@ + t + "\""@);
            }
            return respond_soap_fault(msg.as_str());
        }
        let tl = trimmed.as_str().unicode_len();
        let nl = SOAP_NS_PREFIX.unicode_len();
        let action = trimmed.as_str().substring_char(nl, tl).to_owned();
        proof {
            assert(action@ =~= t.skip(SOAP_NS_PREFIX@.len() as int));
        }
        if str_eq(action.as_str(), "Browse") {
            let brq = match parse_browse_request(body) {
                Err(e) => {
                    let m = e.message();
                    return respond_soap_fault(m.as_str());
                },
                Ok(brq) => brq,
            };
            match self.call_dlna_browse(brq.object_id.as_str()) {
                Err(e) => {
                    let m = e.message();
                    respond_soap_fault(m.as_str())
                },
                Ok(b) => {
                    let ghost entries = self.tree.entries_spec();
                    let ghost ch = children_spec(entries, brq.object_id@);
                    proof {
                        lemma_containers_render(entries, dirs_of(ch), b.containers@);
                        lemma_items_render(self.uri@, files_of(ch), b.items@);
                    }
                    let didl = render_didl(&b.containers, &b.items);
                    let resp = render_browse_response(
                        didl.as_str(),
                        b.number_returned,
                        b.total_matches,
                        b.update_id,
                    );
                    respond_soap(resp.as_str())
                },
            }
        } else {
            let mut msg = "Unknown action \"".to_owned();
            msg.append(action.as_str());
            msg.append("\"");
            proof {
                assert(msg@ =~= "Unknown action \""@ + t.skip(SOAP_NS_PREFIX@.len() as int)
                    + "\""@);
            }
            respond_soap_fault(msg.as_str())
        }
    }

    /// Serve the connection-manager branch: its service description, or
    /// 404.
    pub fn call_connection(&self, req: &mut Request) -> (r: HttpResponse)
        requires
            old(req).wf(),
        ensures
            first_segment(old(req).remaining()) == "desc.xml"@ ==> r.status == 200 && r.body@
                == CONNECTION_XML@,
            first_segment(old(req).remaining()) != "desc.xml"@ ==> r.status == 404 && r.body@
                == Seq::<char>::empty(),
    {
        let seg = req.pop();
        if str_eq(seg.as_str(), "desc.xml") {
            respond_ok(CONNECTION_XML.to_owned())
        } else {
            call_not_found()
        }
    }

    /// Serve the content-directory branch: the SOAP control endpoint, its
    /// service description, or 404.
    pub fn call_content(&self, req: &mut Request, soapaction: &Option<String>, body: Vec<u8>) -> (r:
        HttpResponse)
        requires
            old(req).wf(),
        ensures
            first_segment(old(req).remaining()) == "control"@ ==> r.status == 200 && r.body@
                == soap_page_spec(
                self.tree.entries_spec(),
                self.uri@,
                opt_view(*soapaction),
                body@,
            ),
            first_segment(old(req).remaining()) != "control"@ && first_segment(
                old(req).remaining(),
            ) == "desc.xml"@ ==> r.status == 200 && r.body@ == CONTENT_XML@,
            first_segment(old(req).remaining()) != "control"@ && first_segment(
                old(req).remaining(),
            ) != "desc.xml"@ ==> r.status == 404 && r.body@ == Seq::<char>::empty(),
    {
        let seg = req.pop();
        if str_eq(seg.as_str(), "control") {
            self.call_content_soap(soapaction, body)
        } else if str_eq(seg.as_str(), "desc.xml") {
            respond_ok(CONTENT_XML.to_owned())
        } else {
            call_not_found()
        }
    }

    /// Route a request from its first path segment.
    pub fn call_root(
        &self,
        req: &mut Request,
        method: HttpMethod,
        soapaction: &Option<String>,
        body: Vec<u8>,
    ) -> (r: Reply)
        requires
            old(req).wf(),
        ensures
            route_ensures(*self, method, old(req).remaining(), opt_view(*soapaction), body@, r),
    {
        let seg = req.pop();
        if str_eq(seg.as_str(), "root.xml") {
            match method {
                HttpMethod::Get => Reply::Page(respond_ok(self.root_xml.clone())),
                _ => Reply::Page(call_method_not_allowed()),
            }
        } else if str_eq(seg.as_str(), "connection") {
            Reply::Page(self.call_connection(req))
        } else if str_eq(seg.as_str(), "content") {
            Reply::Page(self.call_content(req, soapaction, body))
        } else if str_eq(seg.as_str(), "video") {
            match self.call_video(req) {
                Ok(plan) => Reply::Stream(plan),
                Err(_) => Reply::Page(
                    HttpResponse { status: 500, body: "Internal Error".to_owned() },
                ),
            }
        } else {
            Reply::Page(call_not_found())
        }
    }

    /// Handle one request: wrap the path, route it, and answer. Uncaught
    /// failures surface as a plain 500 page with a fixed minimal body.
    pub fn call(
        &self,
        method: HttpMethod,
        path: String,
        soapaction: &Option<String>,
        body: Vec<u8>,
    ) -> (r: Reply)
        ensures
            route_ensures(*self, method, normalize_path(path@), opt_view(*soapaction), body@, r),
    {
        let mut req = Request::new(path);
        self.call_root(&mut req, method, soapaction, body)
    }
}

/// The rendered device description carries the configured UUID verbatim.
pub proof fn lemma_root_xml_contains_uuid(uuid: Seq<char>, name: Seq<char>)
    ensures
        exists|i: int|
            0 <= i && i + uuid.len() <= root_xml_spec(uuid, name).len() && #[trigger] root_xml_spec(
                uuid,
                name,
            ).subrange(i, i + uuid.len() as int) == uuid,
{
    let doc = root_xml_spec(uuid, name);
    let i0 = (ROOT_XML_PRE@.len() + name.len() + ROOT_XML_MID@.len()) as int;
    assert(doc.subrange(i0, i0 + uuid.len() as int) =~= uuid);
    assert(0 <= i0 && i0 + uuid.len() <= doc.len() && doc.subrange(i0, i0 + uuid.len() as int)
        == uuid);
}

/// Browsing a directory with one directory child and one leaf child yields
/// exactly one container for the former and one item for the latter, each
/// preserving id, parent id, title and class, and the item carries exactly
/// one resource whose uri is the server's video endpoint for that child.
pub proof fn lemma_browse_directory_partition(
    entries: Seq<ContentEntry>,
    uri: Seq<char>,
    oid: Seq<char>,
    c1: ContentEntry,
    c2: ContentEntry,
    b: BrowseResult,
)
    requires
        children_spec(entries, oid) == seq![c1, c2],
        c1.is_dir,
        !c2.is_dir,
        browse_ok(entries, uri, oid, b),
    ensures
        b.containers@.len() == 1,
        container_matches(entries, c1, b.containers@[0]),
        b.items@.len() == 1,
        item_matches(c2, uri, b.items@[0]),
        b.items@[0].res@.len() == 1,
        b.items@[0].res@[0].uri@ == uri + "/video/"@ + c2.id@,
{
    let ch = children_spec(entries, oid);
    assert(ch[0] == c1 && ch[1] == c2);
    assert(ch.skip(1) =~= seq![c2]);
    assert(seq![c2].skip(1) =~= Seq::<ContentEntry>::empty());
    assert(dirs_of(Seq::<ContentEntry>::empty()) =~= Seq::<ContentEntry>::empty());
    assert(files_of(Seq::<ContentEntry>::empty()) =~= Seq::<ContentEntry>::empty());
    assert(seq![c2][0] == c2);
    assert(dirs_of(seq![c2]) =~= Seq::<ContentEntry>::empty());
    assert(files_of(seq![c2]) =~= seq![c2]);
    assert(dirs_of(ch) =~= seq![c1]);
    assert(files_of(ch) =~= seq![c2]);
    assert(container_matches(entries, dirs_of(ch)[0], b.containers@[0]));
    assert(item_matches(files_of(ch)[0], uri, b.items@[0]));
}

proof fn lemma_dirs_of_snoc(s: Seq<ContentEntry>, e: ContentEntry)
    ensures
        dirs_of(s.push(e)) == if e.is_dir {
            dirs_of(s).push(e)
        } else {
            dirs_of(s)
        },
    decreases s.len(),
{
    assert(s.push(e).len() == s.len() + 1);
    if s.len() == 0 {
        assert(s.push(e)[0] == e);
        assert(s.push(e).skip(1) =~= Seq::<ContentEntry>::empty());
        assert(dirs_of(s) =~= Seq::<ContentEntry>::empty());
        if e.is_dir {
            assert(dirs_of(s.push(e)) == seq![e] + dirs_of(s.push(e).skip(1)));
            assert(dirs_of(s.push(e)) =~= dirs_of(s).push(e));
        } else {
            assert(dirs_of(s.push(e)) == dirs_of(s.push(e).skip(1)));
            assert(dirs_of(s.push(e)) =~= dirs_of(s));
        }
    } else {
        assert(s.push(e)[0] == s[0]);
        assert(s.push(e).skip(1) =~= s.skip(1).push(e));
        lemma_dirs_of_snoc(s.skip(1), e);
        if s[0].is_dir {
            if e.is_dir {
                assert(seq![s[0]] + dirs_of(s.skip(1)).push(e) =~= (seq![s[0]] + dirs_of(
                    s.skip(1),
                )).push(e));
            }
        }
    }
}

proof fn lemma_files_of_snoc(s: Seq<ContentEntry>, e: ContentEntry)
    ensures
        files_of(s.push(e)) == if !e.is_dir {
            files_of(s).push(e)
        } else {
            files_of(s)
        },
    decreases s.len(),
{
    assert(s.push(e).len() == s.len() + 1);
    if s.len() == 0 {
        assert(s.push(e)[0] == e);
        assert(s.push(e).skip(1) =~= Seq::<ContentEntry>::empty());
        assert(files_of(s) =~= Seq::<ContentEntry>::empty());
        if !e.is_dir {
            assert(files_of(s.push(e)) == seq![e] + files_of(s.push(e).skip(1)));
            assert(files_of(s.push(e)) =~= files_of(s).push(e));
        } else {
            assert(files_of(s.push(e)) == files_of(s.push(e).skip(1)));
            assert(files_of(s.push(e)) =~= files_of(s));
        }
    } else {
        assert(s.push(e)[0] == s[0]);
        assert(s.push(e).skip(1) =~= s.skip(1).push(e));
        lemma_files_of_snoc(s.skip(1), e);
        if !s[0].is_dir {
            if !e.is_dir {
                assert(seq![s[0]] + files_of(s.skip(1)).push(e) =~= (seq![s[0]] + files_of(
                    s.skip(1),
                )).push(e));
            }
        }
    }
}

/// Containers that match the directory entries render to exactly the
/// container block those entries describe.
proof fn lemma_containers_render(
    entries: Seq<ContentEntry>,
    ds: Seq<ContentEntry>,
    cs: Seq<Container>,
)
    requires
        containers_match(entries, ds, cs),
    ensures
        crate::xml::container_list_xml(cs) == containers_block(entries, ds),
    decreases ds.len(),
{
    if ds.len() == 0 {
        assert(crate::xml::container_list_xml(cs) =~= containers_block(entries, ds));
    } else {
        assert(container_matches(entries, ds[0], cs[0]));
        assert(container_xml(cs[0]) == container_xml_v(
            ds[0].id@,
            ds[0].parent_id@,
            ds[0].title@,
            true,
            children_spec(entries, ds[0].id@).len(),
            ds[0].class@,
        ));
        assert forall|k: int| 0 <= k < ds.skip(1).len() implies container_matches(
            entries,
            ds.skip(1)[k],
            cs.skip(1)[k],
        ) by {
            assert(ds.skip(1)[k] == ds[k + 1]);
            assert(cs.skip(1)[k] == cs[k + 1]);
        }
        lemma_containers_render(entries, ds.skip(1), cs.skip(1));
    }
}

/// Items that match the leaf entries render to exactly the item block those
/// entries describe.
proof fn lemma_items_render(uri: Seq<char>, fs: Seq<ContentEntry>, its: Seq<Item>)
    requires
        items_match(uri, fs, its),
    ensures
        crate::xml::item_list_xml(its) == items_block(fs, uri),
    decreases fs.len(),
{
    if fs.len() == 0 {
        assert(crate::xml::item_list_xml(its) =~= items_block(fs, uri));
    } else {
        assert(item_matches(fs[0], uri, its[0]));
        assert(its[0].res@ =~= seq![its[0].res@[0]]);
        assert(crate::xml::res_list_xml(its[0].res@.skip(1)) =~= Seq::<char>::empty());
        assert(crate::xml::res_list_xml(its[0].res@) =~= crate::xml::res_xml(its[0].res@[0]));
        assert(item_xml(its[0]) == item_xml_v(
            fs[0].id@,
            fs[0].parent_id@,
            fs[0].title@,
            true,
            fs[0].class@,
            res_xml_v(PROTOCOL_INFO@, uri + "/video/"@ + fs[0].id@),
        ));
        assert forall|k: int| 0 <= k < fs.skip(1).len() implies item_matches(
            fs.skip(1)[k],
            uri,
            its.skip(1)[k],
        ) by {
            assert(fs.skip(1)[k] == fs[k + 1]);
            assert(its.skip(1)[k] == its[k + 1]);
        }
        lemma_items_render(uri, fs.skip(1), its.skip(1));
    }
}

} // verus!

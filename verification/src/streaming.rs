//! Which renderer a request comes from, and how an item is streamed to it.

use vstd::prelude::*;

use crate::error::AppError;
use crate::dlna_helper::{dlna_features, get_dlna_org_pn_flags};
use crate::media_item::MediaItem;
use crate::registry::IpAddress;
use crate::renderer::{compatible, user_agent_matches, ConfigView, RendererConfiguration};
use crate::state::AppState;
use crate::text::string_from;

verus! {

/// The first profile in `rs` whose user-agent pattern matches, if any.
pub open spec fn first_user_agent_match(rs: Seq<RendererConfiguration>, user_agent: Seq<char>) -> Option<int>
    decreases rs.len(),
{
    if rs.len() == 0 {
        None
    } else {
        match first_user_agent_match(rs.drop_last(), user_agent) {
            Some(i) => Some(i),
            None => if user_agent_matches(rs.last()@, user_agent) {
                Some(rs.len() - 1)
            } else {
                None
            },
        }
    }
}

/// The profile chosen for a user agent: the first that matches, else the default.
pub open spec fn user_agent_renderer(
    rs: Seq<RendererConfiguration>,
    default: RendererConfiguration,
    user_agent: Seq<char>,
) -> ConfigView {
    match first_user_agent_match(rs, user_agent) {
        Some(i) => rs[i]@,
        None => default@,
    }
}

/// What `first_user_agent_match` returns is a match and the first one.
pub proof fn lemma_first_user_agent_match(rs: Seq<RendererConfiguration>, user_agent: Seq<char>)
    ensures
        first_user_agent_match(rs, user_agent) matches Some(i) ==> {
            &&& 0 <= i < rs.len()
            &&& user_agent_matches(rs[i]@, user_agent)
            &&& forall|j: int| 0 <= j < i ==> !user_agent_matches(#[trigger] rs[j]@, user_agent)
        },
        first_user_agent_match(rs, user_agent) is None ==> forall|j: int|
            0 <= j < rs.len() ==> !user_agent_matches(#[trigger] rs[j]@, user_agent),
    decreases rs.len(),
{
    if rs.len() > 0 {
        lemma_first_user_agent_match(rs.drop_last(), user_agent);
        assert forall|j: int| 0 <= j < rs.len() - 1 implies #[trigger] rs[j] == rs.drop_last()[j] by {
        }
    }
}

/// The position of the first profile whose user-agent pattern matches.
pub fn find_user_agent_renderer(renderers: &Vec<RendererConfiguration>, user_agent: &str) -> (r: Option<usize>)
    ensures
        r matches Some(i) ==> first_user_agent_match(renderers@, user_agent@) == Some(i as int),
        r is None ==> first_user_agent_match(renderers@, user_agent@) is None,
{
    let mut i: usize = 0;
    while i < renderers.len()
        invariant
            i <= renderers@.len(),
            first_user_agent_match(renderers@.take(i as int), user_agent@) is None,
        decreases renderers.len() - i,
    {
        assert(renderers@.take(i + 1).drop_last() =~= renderers@.take(i as int));
        if renderers[i].is_match(user_agent) {
            assert(first_user_agent_match(renderers@.take(i + 1), user_agent@) == Some(i as int));
            proof {
                lemma_prefix_match(renderers@, user_agent@, i + 1);
            }
            return Some(i);
        }
        i += 1;
    }
    assert(renderers@.take(renderers@.len() as int) =~= renderers@);
    None
}

/// A match found in a prefix is the first match of the whole list.
proof fn lemma_prefix_match(rs: Seq<RendererConfiguration>, user_agent: Seq<char>, n: int)
    requires
        0 <= n <= rs.len(),
        first_user_agent_match(rs.take(n), user_agent) is Some,
    ensures
        first_user_agent_match(rs, user_agent) == first_user_agent_match(rs.take(n), user_agent),
    decreases rs.len() - n,
{
    if n < rs.len() {
        assert(rs.take(n + 1).drop_last() =~= rs.take(n));
        lemma_prefix_match(rs, user_agent, n + 1);
    } else {
        assert(rs.take(n) =~= rs);
    }
}

impl AppState {
    /// The profile for a request with this user agent: the first loaded
    /// profile whose pattern matches, else the default profile.
    pub fn detect_renderer(&self, user_agent: &str) -> (r: &RendererConfiguration)
        ensures
            r@ == user_agent_renderer(self.renderers@, self.default_renderer, user_agent@),
    {
        proof {
            lemma_first_user_agent_match(self.renderers@, user_agent@);
        }
        match find_user_agent_renderer(&self.renderers, user_agent) {
            Some(i) => &self.renderers[i],
            None => &self.default_renderer,
        }
    }

    /// The profile for a stream request from `ip`: the profile of the
    /// registered device at that address, else the one for the user agent.
    pub fn stream_renderer(&self, ip: &IpAddress, user_agent: &str) -> (r: RendererConfiguration)
        ensures
            r@ == (if self.registry.devices().contains_key(*ip) {
                self.registry.devices()[*ip].renderer@
            } else {
                user_agent_renderer(self.renderers@, self.default_renderer, user_agent@)
            }),
    {
        match self.registry.get_renderer(ip) {
            Some(r) => r,
            None => self.detect_renderer(user_agent).duplicate(),
        }
    }
}

/// How an item is sent to a renderer.
pub struct StreamPlan {
    /// The item is transcoded to MPEG-TS rather than served as it is.
    pub transcode: bool,
    /// The MIME type announced for the stream.
    pub mime_type: String,
    /// The DLNA feature string announced for the stream.
    pub features: String,
}

/// The MIME type of a stream: MPEG for a transcoded one, the item's own otherwise.
pub open spec fn stream_mime(item: MediaItem, transcode: bool) -> Seq<char> {
    if transcode {
        "video/mpeg"@
    } else {
        item.mime_type@
    }
}

/// Decides how `item` is sent to `renderer`: as it is when the renderer can
/// play it directly, transcoded to MPEG-TS otherwise.
pub fn plan_stream(renderer: &RendererConfiguration, item: &MediaItem) -> (r: StreamPlan)
    ensures
        r.transcode == !compatible(renderer@, *item),
        r.mime_type@ == stream_mime(*item, r.transcode),
        r.features@ == dlna_features(r.mime_type@, renderer@, r.transcode),
{
    let transcode = !renderer.is_compatible(item);
    let mime_type = if transcode {
        string_from("video/mpeg")
    } else {
        item.mime_type.clone()
    };
    let features = get_dlna_org_pn_flags(mime_type.as_str(), renderer, transcode);
    StreamPlan { transcode, mime_type, features }
}

/// The response headers of a stream, in order: for a direct one the DLNA
/// headers added to the file response, for a transcoded one also its type and
/// chunked transfer.
pub open spec fn stream_header_spec(transcode: bool, mime: Seq<char>, features: Seq<char>) -> Seq<(Seq<char>, Seq<char>)> {
    if transcode {
        seq![
            ("Content-Type"@, mime),
            ("Transfer-Encoding"@, "chunked"@),
            ("contentFeatures.dlna.org"@, features),
            ("transferMode.dlna.org"@, "Streaming"@),
        ]
    } else {
        seq![
            ("contentFeatures.dlna.org"@, features),
            ("transferMode.dlna.org"@, "Streaming"@),
            ("realTimeInfo.dlna.org"@, "DLNA.ORG_TLAG=*"@),
        ]
    }
}

/// The response headers for a planned stream.
pub fn stream_headers(plan: &StreamPlan) -> (r: Vec<(String, String)>)
    ensures
        r@.map_values(|h: (String, String)| (h.0@, h.1@)) == stream_header_spec(
            plan.transcode,
            plan.mime_type@,
            plan.features@,
        ),
{
    let mut v: Vec<(String, String)> = Vec::new();
    if plan.transcode {
        v.push((string_from("Content-Type"), plan.mime_type.clone()));
        v.push((string_from("Transfer-Encoding"), string_from("chunked")));
        v.push((string_from("contentFeatures.dlna.org"), plan.features.clone()));
        v.push((string_from("transferMode.dlna.org"), string_from("Streaming")));
    } else {
        v.push((string_from("contentFeatures.dlna.org"), plan.features.clone()));
        v.push((string_from("transferMode.dlna.org"), string_from("Streaming")));
        v.push((string_from("realTimeInfo.dlna.org"), string_from("DLNA.ORG_TLAG=*")));
    }
    assert(v@.map_values(|h: (String, String)| (h.0@, h.1@)) =~= stream_header_spec(
        plan.transcode,
        plan.mime_type@,
        plan.features@,
    ));
    v
}

/// The message of a stream request for an ID the library does not hold.
pub open spec fn media_not_found() -> Seq<char> {
    "Media Not Found"@
}

/// The item a stream request is for: the item found under the requested ID,
/// or `NotFound` when there is none.
pub fn stream_target(item: Option<MediaItem>) -> (r: Result<MediaItem, AppError>)
    ensures
        item matches Some(it) ==> r == Ok::<MediaItem, AppError>(it),
        item is None ==> (r matches Err(AppError::NotFound(m)) && m@ == media_not_found()),
{
    match item {
        Some(it) => Ok(it),
        None => Err(AppError::NotFound(string_from("Media Not Found"))),
    }
}

} // verus!

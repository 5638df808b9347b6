//! Video nodes: `<iframe>`, `<video>` and `<embed>` elements under the
//! article node, with provider inference from their source.

use vstd::prelude::*;

use crate::chars::{contains_str, seq_contains, string_from_chars};
use crate::dom::{attr_of, is_anc, tag_is, Dom, DomView};
use crate::lang::Language;
use crate::noise::spec_is_noise_node;
use crate::score::{article_node, spec_article_node};
use crate::text::ArticleTextNode;

verus! {

/// A video hosting provider inferred from a source URL.
#[derive(Clone, Copy, Debug, PartialEq, Eq, Structural)]
pub enum VideoProvider {
    Youtube,
    Vimeo,
    Dailymotion,
    Unknown,
}

/// A reference to a video-bearing element: its node, its source, and the
/// provider read off the source.
pub struct VideoNode {
    /// The element's node index.
    pub node: usize,
    /// The `src` attribute, when present.
    pub src: Option<String>,
    /// The provider inferred from the source.
    pub provider: VideoProvider,
}

/// The provider a source URL names.
pub open spec fn spec_provider_of(src: Option<Seq<char>>) -> VideoProvider {
    match src {
        Some(s) => if seq_contains(s, "youtube"@) {
            VideoProvider::Youtube
        } else if seq_contains(s, "vimeo"@) {
            VideoProvider::Vimeo
        } else if seq_contains(s, "dailymotion"@) {
            VideoProvider::Dailymotion
        } else {
            VideoProvider::Unknown
        },
        None => VideoProvider::Unknown,
    }
}

/// Whether node `j` is picked up in the first video pass: a non-noise
/// `<iframe>` or `<video>` descendant of `i`.
pub open spec fn video_pass_one(d: DomView, i: int, j: int) -> bool {
    is_anc(d, i, j) && (tag_is(d, j, "iframe"@) || tag_is(d, j, "video"@)) && !spec_is_noise_node(
        d,
        j,
    )
}

/// Whether node `j` is picked up in the embed pass: a non-noise `<embed>`
/// descendant of `i` whose parent exists and is not `<object>`.
pub open spec fn video_pass_embed(d: DomView, i: int, j: int) -> bool {
    is_anc(d, i, j) && tag_is(d, j, "embed"@) && !spec_is_noise_node(d, j) && (match d[j].parent {
        Some(p) => !tag_is(d, p, "object"@),
        None => false,
    })
}

pub open spec fn videos_pass_upto(d: DomView, i: int, j: int, embeds: bool) -> Seq<int>
    decreases j,
{
    if j <= 0 {
        Seq::empty()
    } else {
        videos_pass_upto(d, i, j - 1, embeds) + {
            let hit = if embeds {
                video_pass_embed(d, i, j - 1)
            } else {
                video_pass_one(d, i, j - 1)
            };
            if hit {
                seq![j - 1]
            } else {
                Seq::empty()
            }
        }
    }
}

/// The video node indices of the article node `i`: iframes and videos in
/// document order, then qualifying embeds.
pub open spec fn spec_video_nodes(d: DomView, i: int) -> Seq<int> {
    videos_pass_upto(d, i, d.len() as int, false) + videos_pass_upto(d, i, d.len() as int, true)
}

impl VideoNode {
    /// The ghost pair a video node denotes: its index and its source.
    pub open spec fn view_pair(self) -> (int, Option<Seq<char>>) {
        (
            self.node as int,
            match self.src {
                Some(s) => Some(s@),
                None => None,
            },
        )
    }
}

/// What a well-formed video node holds for element `j` of the document.
pub open spec fn video_node_for(d: DomView, v: VideoNode, j: int) -> bool {
    &&& v.node == j
    &&& v.view_pair().1 == attr_of(d, j, "src"@)
    &&& v.provider == spec_provider_of(attr_of(d, j, "src"@))
}

impl Dom {
    fn make_video_node(&self, j: usize) -> (r: VideoNode)
        requires
            j < self@.len(),
        ensures
            video_node_for(self@, r, j as int),
    {
        let src: Option<String> = match self.attr(j, "src") {
            Some(s) => Some(string_from_chars(s.as_slice())),
            None => None,
        };
        let provider = match &src {
            Some(s) => {
                let cs = crate::chars::chars_of(s.as_str());
                if contains_str(cs.as_slice(), "youtube") {
                    VideoProvider::Youtube
                } else if contains_str(cs.as_slice(), "vimeo") {
                    VideoProvider::Vimeo
                } else if contains_str(cs.as_slice(), "dailymotion") {
                    VideoProvider::Dailymotion
                } else {
                    VideoProvider::Unknown
                }
            },
            None => VideoProvider::Unknown,
        };
        VideoNode { node: j, src, provider }
    }
}

impl ArticleTextNode {
    /// Extract all the nodes that hold video data under the article node.
    pub fn videos(&self, dom: &Dom) -> (r: Vec<VideoNode>)
        requires
            self.node < dom@.len(),
        ensures
            r@.map_values(|v: VideoNode| v.node as int) == spec_video_nodes(
                dom@,
                self.node as int,
            ),
            forall|k: int|
                0 <= k < r@.len() ==> video_node_for(dom@, #[trigger] r@[k], r@[k].node as int),
    {
        let i = self.node;
        let n = dom.len();
        let mut out: Vec<VideoNode> = Vec::new();
        let mut j: usize = 0;
        while j < n
            invariant
                j <= n,
                n == dom@.len(),
                i < dom@.len(),
                i == self.node,
                out@.map_values(|v: VideoNode| v.node as int) == videos_pass_upto(
                    dom@,
                    i as int,
                    j as int,
                    false,
                ),
                forall|k: int|
                    0 <= k < out@.len() ==> video_node_for(
                        dom@,
                        #[trigger] out@[k],
                        out@[k].node as int,
                    ),
            decreases n - j,
        {
            let ghost old_o = out@.map_values(|v: VideoNode| v.node as int);
            if (dom.tag_is(j, "iframe") || dom.tag_is(j, "video")) && dom.has_ancestor(i, j)
                && !dom.is_noise_node(j) {
                let v = dom.make_video_node(j);
                out.push(v);
                proof {
                    assert(out@.map_values(|v: VideoNode| v.node as int) =~= old_o + seq![
                        j as int,
                    ]);
                }
            } else {
                proof {
                    assert(old_o + Seq::<int>::empty() =~= old_o);
                }
            }
            j = j + 1;
        }
        let ghost first = videos_pass_upto(dom@, i as int, dom@.len() as int, false);
        let mut j2: usize = 0;
        while j2 < n
            invariant
                j2 <= n,
                n == dom@.len(),
                i < dom@.len(),
                i == self.node,
                out@.map_values(|v: VideoNode| v.node as int) == first + videos_pass_upto(
                    dom@,
                    i as int,
                    j2 as int,
                    true,
                ),
                forall|k: int|
                    0 <= k < out@.len() ==> video_node_for(
                        dom@,
                        #[trigger] out@[k],
                        out@[k].node as int,
                    ),
            decreases n - j2,
        {
            let ghost old_o = out@.map_values(|v: VideoNode| v.node as int);
            let parent_ok = match dom.parent_of(j2) {
                Some(p) => !dom.tag_is(p, "object"),
                None => false,
            };
            if dom.tag_is(j2, "embed") && dom.has_ancestor(i, j2) && !dom.is_noise_node(j2)
                && parent_ok {
                let v = dom.make_video_node(j2);
                out.push(v);
                proof {
                    assert(video_pass_embed(dom@, i as int, j2 as int));
                    assert(out@.map_values(|v: VideoNode| v.node as int) =~= old_o + seq![
                        j2 as int,
                    ]);
                    assert(old_o + seq![j2 as int] =~= first + (videos_pass_upto(
                        dom@,
                        i as int,
                        j2 as int,
                        true,
                    ) + seq![j2 as int]));
                }
            } else {
                proof {
                    assert(!video_pass_embed(dom@, i as int, j2 as int));
                    assert(old_o + Seq::<int>::empty() =~= old_o);
                    assert(first + (videos_pass_upto(dom@, i as int, j2 as int, true)
                        + Seq::<int>::empty()) =~= first + videos_pass_upto(
                        dom@,
                        i as int,
                        j2 as int,
                        true,
                    ));
                }
            }
            j2 = j2 + 1;
        }
        out
    }
}

/// All video content in the article: the video nodes under the detected
/// article node, or none when no article node is found.
pub fn videos(dom: &Dom, lang: Option<Language>) -> (r: Vec<VideoNode>)
    ensures
        match spec_article_node(dom@, spec_videos_lang(lang)) {
            Some(sel) => r@.map_values(|v: VideoNode| v.node as int) == spec_video_nodes(
                dom@,
                sel.0,
            ),
            None => r@.len() == 0,
        },
{
    let l: Language = match lang {
        Some(l) => l,
        None => Language::default(),
    };
    proof {
        assert(l == spec_videos_lang(lang));
    }
    match article_node(dom, &l) {
        Some(node) => node.videos(dom),
        None => Vec::new(),
    }
}

/// The language the video extractor scores with: the given one, or the
/// default.
pub open spec fn spec_videos_lang(lang: Option<Language>) -> Language {
    match lang {
        Some(l) => l,
        None => Language::English,
    }
}

} // verus!

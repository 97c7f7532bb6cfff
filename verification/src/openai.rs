//! Messages in the shape of the OpenAI chat API, and their conversion to and
//! from the internal messages.
use vstd::prelude::*;

use crate::image_utils::{
    b64_run, base64_marker, data_image_prefix, image_match_at, image_subtype_at, is_b64_char,
    image_prefix, image_url_captures, parse_image_b64_from_image_url_openai,
};
use crate::messages::{
    collect_results, lemma_collect_results_err, lemma_collect_results_values, lemma_collect_results_step, new_item, result_view,
    text_type, tool_calls_view, ContentArrayItem, Message, MessageContent, MessageContentView,
    MessageView, ToolCall,
};
use crate::text::{concat, push_str, str_eq, str_starts_with};

verus! {

/// The word `image_url`, the type of an image item.
pub open spec fn image_url_type() -> Seq<char> {
    seq!['i', 'm', 'a', 'g', 'e', '_', 'u', 'r', 'l']
}

/// The word `high`, the default detail of an image.
pub open spec fn high_detail() -> Seq<char> {
    seq!['h', 'i', 'g', 'h']
}

/// `data:{m_type};base64,{m_content}`.
pub open spec fn image_data_url(m_type: Seq<char>, m_content: Seq<char>) -> Seq<char> {
    seq!['d', 'a', 't', 'a', ':'] + m_type + base64_marker() + m_content
}

/// The view of an OpenAI content item.
pub enum OContentArrayItemView {
    Text { content_type: Seq<char>, text: Seq<char> },
    Image { content_type: Seq<char>, url: Seq<char>, detail: Seq<char> },
}

/// The internal item of an image URL: its media type and payload, or the
/// error when the URL holds no image data URL.
pub open spec fn image_url_to_item(url: Seq<char>) -> Result<(Seq<char>, Seq<char>), Seq<char>> {
    match image_url_captures(url) {
        None => Err("Failed to parse image URL: "@ + url),
        Some((t, c)) => new_item(t, c),
    }
}

/// The internal item of an OpenAI content item.
pub open spec fn oitem_to_internal(v: OContentArrayItemView) -> Result<
    (Seq<char>, Seq<char>),
    Seq<char>,
> {
    match v {
        OContentArrayItemView::Text { content_type, text } => new_item(content_type, text),
        OContentArrayItemView::Image { url, .. } => image_url_to_item(url),
    }
}

/// The OpenAI content item of an internal item (type, content).
pub open spec fn oitem_from_internal(item: (Seq<char>, Seq<char>)) -> Result<
    OContentArrayItemView,
    Seq<char>,
> {
    if item.0 == text_type() {
        Ok(OContentArrayItemView::Text { content_type: text_type(), text: item.1 })
    } else if image_prefix().is_prefix_of(item.0) {
        Ok(
            OContentArrayItemView::Image {
                content_type: image_url_type(),
                url: image_data_url(item.0, item.1),
                detail: high_detail(),
            },
        )
    } else {
        Err("Unsupported content type: "@ + item.0)
    }
}

/// The view of OpenAI message content.
pub enum OMessageContentView {
    ContentString(Seq<char>),
    ContentArray(Seq<OContentArrayItemView>),
}

/// The internal content of OpenAI content.
pub open spec fn ocontent_to_internal(c: OMessageContentView) -> Result<
    MessageContentView,
    Seq<char>,
> {
    match c {
        OMessageContentView::ContentString(s) => Ok(MessageContentView::ContentString(s)),
        OMessageContentView::ContentArray(items) => match collect_results(
            items.map_values(|v: OContentArrayItemView| oitem_to_internal(v)),
        ) {
            Ok(v) => Ok(MessageContentView::ContentArray(v)),
            Err(e) => Err(e),
        },
    }
}

/// The OpenAI content of internal content.
pub open spec fn ocontent_from_internal(c: MessageContentView) -> Result<
    OMessageContentView,
    Seq<char>,
> {
    match c {
        MessageContentView::ContentString(s) => Ok(OMessageContentView::ContentString(s)),
        MessageContentView::ContentArray(items) => match collect_results(
            items.map_values(|v: (Seq<char>, Seq<char>)| oitem_from_internal(v)),
        ) {
            Ok(v) => Ok(OMessageContentView::ContentArray(v)),
            Err(e) => Err(e),
        },
    }
}

/// The view of an OpenAI message.
pub struct OMessageView {
    pub role: Seq<char>,
    pub content: OMessageContentView,
    pub tool_calls: Option<Seq<ToolCall>>,
    pub tool_call_id: Seq<char>,
}

/// The internal message of an OpenAI message.
pub open spec fn omessage_to_internal(m: OMessageView) -> Result<MessageView, Seq<char>> {
    match ocontent_to_internal(m.content) {
        Err(e) => Err(e),
        Ok(c) => Ok(
            MessageView {
                role: m.role,
                content: c,
                tool_calls: m.tool_calls,
                tool_call_id: m.tool_call_id,
            },
        ),
    }
}

/// The OpenAI message of an internal message.
pub open spec fn omessage_from_internal(m: MessageView) -> Result<OMessageView, Seq<char>> {
    match ocontent_from_internal(m.content) {
        Err(e) => Err(e),
        Ok(c) => Ok(
            OMessageView {
                role: m.role,
                content: c,
                tool_calls: m.tool_calls,
                tool_call_id: m.tool_call_id,
            },
        ),
    }
}

/// A text item in the OpenAI shape.
#[derive(Debug)]
pub struct OContentArrayItemText {
    pub content_type: String,
    pub text: String,
}

impl Default for OContentArrayItemText {
    fn default() -> (res: Self)
        ensures
            res.content_type@ == Seq::<char>::empty(),
            res.text@ == Seq::<char>::empty(),
    {
        OContentArrayItemText { content_type: String::new(), text: String::new() }
    }
}

impl Clone for OContentArrayItemText {
    fn clone(&self) -> (res: Self)
        ensures
            res == *self,
    {
        OContentArrayItemText { content_type: self.content_type.clone(), text: self.text.clone() }
    }
}

impl OContentArrayItemText {
    /// The internal item with this item's type and text.
    pub fn to_internal(&self) -> (res: Result<ContentArrayItem, String>)
        ensures
            result_view(res) == new_item(self.content_type@, self.text@),
    {
        ContentArrayItem::new(self.content_type.clone(), self.text.clone())
    }

    /// A text item with the item's content.
    pub fn from_internal(item: ContentArrayItem) -> (res: Self)
        ensures
            res.content_type@ == text_type(),
            res.text == item.m_content,
    {
        proof {
            reveal_strlit("text");
            assert("text"@ =~= text_type());
        }
        OContentArrayItemText { content_type: "text".to_owned(), text: item.m_content }
    }
}

/// The URL of an image item and the detail it asks for.
#[derive(Debug)]
pub struct OContentArrayItemImageUrl {
    pub url: String,
    pub detail: String,
}

impl Default for OContentArrayItemImageUrl {
    fn default() -> (res: Self)
        ensures
            res.url@ == Seq::<char>::empty(),
            res.detail@ == Seq::<char>::empty(),
    {
        OContentArrayItemImageUrl { url: String::new(), detail: String::new() }
    }
}

impl Clone for OContentArrayItemImageUrl {
    fn clone(&self) -> (res: Self)
        ensures
            res == *self,
    {
        OContentArrayItemImageUrl { url: self.url.clone(), detail: self.detail.clone() }
    }
}

/// The detail that an image gets when none is given: `high`.
pub fn default_detail() -> (res: String)
    ensures
        res@ == high_detail(),
{
    proof {
        reveal_strlit("high");
        assert("high"@ =~= high_detail());
    }
    "high".to_owned()
}

/// An image item in the OpenAI shape.
#[derive(Debug)]
pub struct OContentArrayItemImage {
    pub content_type: String,
    pub image_url: OContentArrayItemImageUrl,
}

impl Default for OContentArrayItemImage {
    fn default() -> (res: Self)
        ensures
            res.content_type@ == Seq::<char>::empty(),
            res.image_url.url@ == Seq::<char>::empty(),
            res.image_url.detail@ == Seq::<char>::empty(),
    {
        OContentArrayItemImage {
            content_type: String::new(),
            image_url: OContentArrayItemImageUrl::default(),
        }
    }
}

impl Clone for OContentArrayItemImage {
    fn clone(&self) -> (res: Self)
        ensures
            res == *self,
    {
        OContentArrayItemImage {
            content_type: self.content_type.clone(),
            image_url: self.image_url.clone(),
        }
    }
}

impl OContentArrayItemImage {
    /// The internal item of the image data URL that the item's URL holds.
    pub fn to_internal(&self) -> (res: Result<ContentArrayItem, String>)
        ensures
            result_view(res) == image_url_to_item(self.image_url.url@),
    {
        match parse_image_b64_from_image_url_openai(self.image_url.url.as_str()) {
            None => Err(concat("Failed to parse image URL: ", self.image_url.url.as_str())),
            Some((image_type, _, image_content)) => ContentArrayItem::new(image_type, image_content),
        }
    }

    /// An image item whose URL is the data URL of the item.
    pub fn from_internal(item: ContentArrayItem) -> (res: Self)
        ensures
            res.content_type@ == image_url_type(),
            res.image_url.url@ == image_data_url(item.m_type@, item.m_content@),
            res.image_url.detail@ == high_detail(),
    {
        let mut url = "data:".to_owned();
        push_str(&mut url, item.m_type.as_str());
        push_str(&mut url, ";base64,");
        push_str(&mut url, item.m_content.as_str());
        proof {
            reveal_strlit("data:");
            reveal_strlit(";base64,");
            reveal_strlit("image_url");
            assert(";base64,"@ =~= base64_marker());
            assert("image_url"@ =~= image_url_type());
            assert(url@ =~= image_data_url(item.m_type@, item.m_content@));
        }
        OContentArrayItemImage {
            content_type: "image_url".to_owned(),
            image_url: OContentArrayItemImageUrl { url, detail: default_detail() },
        }
    }
}

/// A content item in the OpenAI shape: text or image.
#[derive(Debug)]
pub enum OContentArrayItem {
    OContentArrayItemText(OContentArrayItemText),
    OContentArrayItemImage(OContentArrayItemImage),
}

impl Clone for OContentArrayItem {
    fn clone(&self) -> (res: Self)
        ensures
            res == *self,
    {
        match self {
            OContentArrayItem::OContentArrayItemText(t) => OContentArrayItem::OContentArrayItemText(
                t.clone(),
            ),
            OContentArrayItem::OContentArrayItemImage(i) => OContentArrayItem::OContentArrayItemImage(
                i.clone(),
            ),
        }
    }
}

impl View for OContentArrayItem {
    type V = OContentArrayItemView;

    open spec fn view(&self) -> OContentArrayItemView {
        match self {
            OContentArrayItem::OContentArrayItemText(t) => OContentArrayItemView::Text {
                content_type: t.content_type@,
                text: t.text@,
            },
            OContentArrayItem::OContentArrayItemImage(i) => OContentArrayItemView::Image {
                content_type: i.content_type@,
                url: i.image_url.url@,
                detail: i.image_url.detail@,
            },
        }
    }
}

impl OContentArrayItem {
    /// The internal item of this item.
    pub fn to_internal(&self) -> (res: Result<ContentArrayItem, String>)
        ensures
            result_view(res) == oitem_to_internal(self@),
    {
        match self {
            OContentArrayItem::OContentArrayItemText(item) => item.to_internal(),
            OContentArrayItem::OContentArrayItemImage(item) => item.to_internal(),
        }
    }

    /// The OpenAI item of an internal item: text items stay text, `image/...`
    /// items become data URLs, other types are refused.
    pub fn from_internal(item: ContentArrayItem) -> (res: Result<Self, String>)
        ensures
            result_view(res) == oitem_from_internal(item@),
    {
        let is_text = str_eq(item.m_type.as_str(), "text");
        proof {
            reveal_strlit("text");
            assert("text"@ =~= text_type());
        }
        if is_text {
            return Ok(
                OContentArrayItem::OContentArrayItemText(OContentArrayItemText::from_internal(item)),
            );
        }
        let is_image = str_starts_with(item.m_type.as_str(), "image/");
        proof {
            reveal_strlit("image/");
            assert("image/"@ =~= image_prefix());
        }
        if is_image {
            Ok(OContentArrayItem::OContentArrayItemImage(OContentArrayItemImage::from_internal(item)))
        } else {
            Err(concat("Unsupported content type: ", item.m_type.as_str()))
        }
    }
}

/// The content of an OpenAI message: a plain string or an array of items.
#[derive(Debug)]
pub enum OMessageContent {
    ContentString(String),
    ContentArray(Vec<OContentArrayItem>),
}

impl Clone for OMessageContent {
    fn clone(&self) -> (res: Self)
        ensures
            res@ == self@,
    {
        match self {
            OMessageContent::ContentString(s) => OMessageContent::ContentString(s.clone()),
            OMessageContent::ContentArray(v) => {
                let c = v.clone();
                proof {
                    assert(c@ =~= v@);
                }
                OMessageContent::ContentArray(c)
            },
        }
    }
}

impl View for OMessageContent {
    type V = OMessageContentView;

    open spec fn view(&self) -> OMessageContentView {
        match self {
            OMessageContent::ContentString(s) => OMessageContentView::ContentString(s@),
            OMessageContent::ContentArray(v) => OMessageContentView::ContentArray(
                v@.map_values(|i: OContentArrayItem| i@),
            ),
        }
    }
}

impl OMessageContent {
    /// The internal content: strings stay strings, arrays convert item by item
    /// and fail with the error of the first item that cannot be converted.
    pub fn to_internal(&self) -> (res: Result<MessageContent, String>)
        ensures
            result_view(res) == ocontent_to_internal(self@),
    {
        match self {
            OMessageContent::ContentString(content) => Ok(
                MessageContent::ContentString(content.clone()),
            ),
            OMessageContent::ContentArray(els) => {
                let ghost rs = els@.map_values(
                    |v: OContentArrayItem| oitem_to_internal(v@),
                );
                proof {
                    assert(rs =~= els@.map_values(|i: OContentArrayItem| i@).map_values(
                        |v: OContentArrayItemView| oitem_to_internal(v),
                    ));
                }
                let mut items: Vec<ContentArrayItem> = Vec::new();
                proof {
                    assert(rs.take(0) =~= Seq::<Result<(Seq<char>, Seq<char>), Seq<char>>>::empty());
                    assert(items@.map_values(|t: ContentArrayItem| t@) =~= Seq::<(Seq<char>, Seq<char>)>::empty());
                }
                let mut i: usize = 0;
                while i < els.len()
                    invariant
                        i <= els@.len(),
                        rs == els@.map_values(|v: OContentArrayItem| oitem_to_internal(v@)),
                        self@ == OMessageContentView::ContentArray(
                            els@.map_values(|i: OContentArrayItem| i@),
                        ),
                        rs == els@.map_values(|i: OContentArrayItem| i@).map_values(
                            |v: OContentArrayItemView| oitem_to_internal(v),
                        ),
                        collect_results(rs.take(i as int)) == Ok::<_, Seq<char>>(
                            items@.map_values(|t: ContentArrayItem| t@),
                        ),
                    decreases els@.len() - i,
                {
                    proof {
                        lemma_collect_results_step(rs, i as int);
                    }
                    match els[i].to_internal() {
                        Ok(item) => {
                            let ghost before = items@.map_values(|t: ContentArrayItem| t@);
                            items.push(item);
                            proof {
                                assert(items@.map_values(|t: ContentArrayItem| t@) =~= before.push(item@));
                            }
                        },
                        Err(e) => {
                            proof {
                                lemma_collect_results_err(rs, i + 1);
                            }
                            return Err(e);
                        },
                    }
                    i = i + 1;
                }
                proof {
                    assert(rs.take(els@.len() as int) =~= rs);
                }
                Ok(MessageContent::ContentArray(items))
            },
        }
    }

    /// The OpenAI content: strings stay strings, arrays convert item by item
    /// and fail with the error of the first item that cannot be converted.
    pub fn from_internal(item: MessageContent) -> (res: Result<Self, String>)
        ensures
            result_view(res) == ocontent_from_internal(item@),
    {
        match item {
            MessageContent::ContentString(content) => Ok(OMessageContent::ContentString(content)),
            MessageContent::ContentArray(items) => {
                let ghost rs = items@.map_values(
                    |v: ContentArrayItem| oitem_from_internal(v@),
                );
                proof {
                    assert(rs =~= items@.map_values(|i: ContentArrayItem| i@).map_values(
                        |v: (Seq<char>, Seq<char>)| oitem_from_internal(v),
                    ));
                }
                let mut o_items: Vec<OContentArrayItem> = Vec::new();
                proof {
                    assert(rs.take(0) =~= Seq::<Result<OContentArrayItemView, Seq<char>>>::empty());
                    assert(o_items@.map_values(|t: OContentArrayItem| t@) =~= Seq::<OContentArrayItemView>::empty());
                }
                for it_item in it: items.into_iter()
                    invariant
                        it.seq() == items@,
                        rs == items@.map_values(|v: ContentArrayItem| oitem_from_internal(v@)),
                        item@ == MessageContentView::ContentArray(
                            items@.map_values(|i: ContentArrayItem| i@),
                        ),
                        rs == items@.map_values(|i: ContentArrayItem| i@).map_values(
                            |v: (Seq<char>, Seq<char>)| oitem_from_internal(v),
                        ),
                        collect_results(rs.take(it.index() as int)) == Ok::<_, Seq<char>>(
                            o_items@.map_values(|t: OContentArrayItem| t@),
                        ),
                {
                    let ghost i = it.index() as int;
                    proof {
                        lemma_collect_results_step(rs, i);
                    }
                    match OContentArrayItem::from_internal(it_item) {
                        Ok(o) => {
                            let ghost before = o_items@.map_values(|t: OContentArrayItem| t@);
                            o_items.push(o);
                            proof {
                                assert(o_items@.map_values(|t: OContentArrayItem| t@) =~= before.push(o@));
                            }
                        },
                        Err(e) => {
                            proof {
                                lemma_collect_results_err(rs, i + 1);
                            }
                            return Err(e);
                        },
                    }
                }
                proof {
                    assert(rs.take(items@.len() as int) =~= rs);
                }
                Ok(OMessageContent::ContentArray(o_items))
            },
        }
    }
}

/// A chat message in the OpenAI shape.
#[derive(Debug)]
pub struct OMessage {
    pub role: String,
    pub content: OMessageContent,
    pub tool_calls: Option<Vec<ToolCall>>,
    pub tool_call_id: String,
}

impl View for OMessage {
    type V = OMessageView;

    open spec fn view(&self) -> OMessageView {
        OMessageView {
            role: self.role@,
            content: self.content@,
            tool_calls: tool_calls_view(self.tool_calls),
            tool_call_id: self.tool_call_id@,
        }
    }
}

impl Clone for OMessage {
    fn clone(&self) -> (res: Self)
        ensures
            res@ == self@,
    {
        OMessage {
            role: self.role.clone(),
            content: self.content.clone(),
            tool_calls: copy_tool_calls(&self.tool_calls),
            tool_call_id: self.tool_call_id.clone(),
        }
    }
}

/// A copy of an optional list of tool calls.
fn copy_tool_calls(t: &Option<Vec<ToolCall>>) -> (res: Option<Vec<ToolCall>>)
    ensures
        tool_calls_view(res) == tool_calls_view(*t),
{
    match t {
        None => None,
        Some(v) => {
            let mut out: Vec<ToolCall> = Vec::new();
            let mut i: usize = 0;
            while i < v.len()
                invariant
                    i <= v@.len(),
                    out@ == v@.take(i as int),
                decreases v@.len() - i,
            {
                out.push(v[i].clone());
                proof {
                    assert(out@ =~= v@.take(i + 1));
                }
                i = i + 1;
            }
            proof {
                assert(v@.take(v@.len() as int) =~= v@);
            }
            Some(out)
        },
    }
}

impl OMessage {
    /// A message of the given role with plain string content.
    pub fn new(role: String, content: String) -> (res: Self)
        ensures
            res.role == role,
            res.content == OMessageContent::ContentString(content),
            res.tool_calls.is_none(),
            res.tool_call_id@ == Seq::<char>::empty(),
    {
        OMessage {
            role,
            content: OMessageContent::ContentString(content),
            tool_calls: None,
            tool_call_id: String::new(),
        }
    }

    /// The internal message: same role, tool calls and tool call id, content
    /// converted (and its error, if it cannot be).
    pub fn to_internal(&self) -> (res: Result<Message, String>)
        ensures
            result_view(res) == omessage_to_internal(self@),
    {
        let content = match self.content.to_internal() {
            Ok(c) => c,
            Err(e) => return Err(e),
        };
        Ok(
            Message {
                role: self.role.clone(),
                content,
                tool_calls: copy_tool_calls(&self.tool_calls),
                tool_call_id: self.tool_call_id.clone(),
            },
        )
    }

    /// The OpenAI message: same role, tool calls and tool call id, content
    /// converted (and its error, if it cannot be).
    pub fn from_internal(item: Message) -> (res: Result<Self, String>)
        ensures
            result_view(res) == omessage_from_internal(item@),
    {
        let content = match OMessageContent::from_internal(item.content) {
            Ok(c) => c,
            Err(e) => return Err(e),
        };
        Ok(
            OMessage {
                role: item.role,
                content,
                tool_calls: item.tool_calls,
                tool_call_id: item.tool_call_id,
            },
        )
    }
}

/// One of the image subtypes that image data URLs are parsed with:
/// `png`, `jpeg`, `jpg`, `webp`, `gif`.
pub open spec fn is_parsed_image_subtype(sub: Seq<char>) -> bool {
    ||| sub == seq!['p', 'n', 'g']
    ||| sub == seq!['j', 'p', 'e', 'g']
    ||| sub == seq!['j', 'p', 'g']
    ||| sub == seq!['w', 'e', 'b', 'p']
    ||| sub == seq!['g', 'i', 'f']
}

/// Non-empty text made of `[A-Za-z0-9+/=]` only.
pub open spec fn is_b64_text(c: Seq<char>) -> bool {
    c.len() > 0 && forall|i: int| 0 <= i < c.len() ==> is_b64_char(#[trigger] c[i])
}

/// An internal item that survives the trip to the OpenAI shape and back:
/// a text item, or an image item of a parsed subtype with base64 content.
pub open spec fn item_round_trips(item: (Seq<char>, Seq<char>)) -> bool {
    ||| item.0 == text_type()
    ||| {
        &&& image_prefix().is_prefix_of(item.0)
        &&& is_parsed_image_subtype(item.0.skip(6))
        &&& is_b64_text(item.1)
    }
}

/// Content whose items all survive the trip to the OpenAI shape and back.
pub open spec fn content_round_trips(c: MessageContentView) -> bool {
    match c {
        MessageContentView::ContentString(_) => true,
        MessageContentView::ContentArray(items) => forall|i: int|
            0 <= i < items.len() ==> #[trigger] item_round_trips(items[i]),
    }
}

proof fn lemma_b64_run(u: Seq<char>, j: int)
    requires
        0 <= j <= u.len(),
        forall|i: int| j <= i < u.len() ==> is_b64_char(#[trigger] u[i]),
    ensures
        b64_run(u, j) == u.len() - j,
    decreases u.len() - j,
{
    if j < u.len() {
        lemma_b64_run(u, j + 1);
    }
}

/// The data URL that an image item becomes is parsed back into the item.
proof fn lemma_data_url_captures(t: Seq<char>, c: Seq<char>)
    requires
        image_prefix().is_prefix_of(t),
        is_parsed_image_subtype(t.skip(6)),
        is_b64_text(c),
    ensures
        image_url_captures(image_data_url(t, c)) == Some((t, c)),
{
    let sub = t.skip(6);
    let u = image_data_url(t, c);
    assert(t =~= image_prefix() + sub);
    let n = sub.len() as int;
    assert(u =~= data_image_prefix() + sub + base64_marker() + c);
    assert(u.subrange(0, 11) =~= data_image_prefix());
    assert(u.subrange(11, 11 + n) =~= sub);
    assert(u.subrange(11 + n, 19 + n) =~= base64_marker());
    assert(u.subrange(19 + n, u.len() as int) =~= c);
    assert(forall|i: int| 0 <= i < n ==> u[11 + i] == sub[i]);
    assert(image_subtype_at(u, 11) == Some(sub)) by {
        if sub == seq!['p', 'n', 'g'] {
        } else if sub == seq!['j', 'p', 'e', 'g'] {
            assert(u[11] == 'j');
            assert(u.subrange(11, 14)[0] == 'j');
        } else if sub == seq!['j', 'p', 'g'] {
            assert(u[11] == 'j');
            assert(u[13] == 'g');
            assert(u.subrange(11, 14)[0] == 'j');
            assert(u.subrange(11, 15)[2] == 'g');
        } else if sub == seq!['w', 'e', 'b', 'p'] {
            assert(u[11] == 'w');
            assert(u.subrange(11, 14)[0] == 'w');
            assert(u.subrange(11, 15)[0] == 'w');
        } else {
            assert(u[11] == 'g');
            assert(u.subrange(11, 14)[0] == 'g');
            assert(u.subrange(11, 15)[0] == 'g');
        }
    }
    assert forall|i: int| 19 + n <= i < u.len() implies is_b64_char(#[trigger] u[i]) by {
        assert(u[i] == c[i - 19 - n]);
    }
    lemma_b64_run(u, 19 + n);
    assert(image_match_at(u, 0) == Some((image_prefix() + sub, c)));
}

/// Results that are all `Ok` collect into the sequence of their values.
pub proof fn lemma_collect_results_all_ok<A>(rs: Seq<Result<A, Seq<char>>>)
    requires
        forall|i: int| 0 <= i < rs.len() ==> (#[trigger] rs[i]) is Ok,
    ensures
        collect_results(rs) == Ok::<_, Seq<char>>(Seq::new(rs.len(), |i: int| rs[i]->Ok_0)),
    decreases rs.len(),
{
    if rs.len() == 0 {
        assert(Seq::new(rs.len(), |i: int| rs[i]->Ok_0) =~= Seq::<A>::empty());
    } else {
        let p = rs.drop_last();
        assert(rs[rs.len() - 1] is Ok);
        assert forall|i: int| 0 <= i < p.len() implies (#[trigger] p[i]) is Ok by {
            assert(p[i] == rs[i]);
        }
        lemma_collect_results_all_ok(p);
        assert(Seq::new(p.len(), |i: int| p[i]->Ok_0).push(rs.last()->Ok_0) =~= Seq::new(
            rs.len(),
            |i: int| rs[i]->Ok_0,
        ));
    }
}

/// Items that round-trip convert to OpenAI items and back to themselves.
proof fn lemma_item_round_trip(item: (Seq<char>, Seq<char>))
    requires
        item_round_trips(item),
    ensures
        oitem_from_internal(item) is Ok,
        oitem_to_internal(oitem_from_internal(item)->Ok_0) == Ok::<_, Seq<char>>(item),
{
    if item.0 != text_type() {
        lemma_data_url_captures(item.0, item.1);
    }
}

/// Converting content that round-trips to the OpenAI shape succeeds, and
/// converting the result back gives the content again.
pub proof fn law_content_round_trip(c: MessageContentView)
    requires
        content_round_trips(c),
    ensures
        ocontent_from_internal(c) is Ok,
        ocontent_to_internal(ocontent_from_internal(c)->Ok_0) == Ok::<_, Seq<char>>(c),
{
    if let MessageContentView::ContentArray(items) = c {
        let ps = items.map_values(|v: (Seq<char>, Seq<char>)| oitem_from_internal(v));
        assert forall|i: int| 0 <= i < ps.len() implies (#[trigger] ps[i]) is Ok by {
            lemma_item_round_trip(items[i]);
        }
        lemma_collect_results_all_ok(ps);
        let os = Seq::new(ps.len(), |i: int| ps[i]->Ok_0);
        let qs = os.map_values(|v: OContentArrayItemView| oitem_to_internal(v));
        assert forall|i: int| 0 <= i < qs.len() implies (#[trigger] qs[i]) == Ok::<_, Seq<char>>(
            items[i],
        ) by {
            lemma_item_round_trip(items[i]);
        }
        lemma_collect_results_all_ok(qs);
        assert(Seq::new(qs.len(), |i: int| qs[i]->Ok_0) =~= items);
    }
}

/// A message whose content round-trips converts to the OpenAI shape, and
/// back to the same message: role, content, tool calls and tool call id.
pub proof fn law_message_round_trip(m: MessageView)
    requires
        content_round_trips(m.content),
    ensures
        omessage_from_internal(m) is Ok,
        omessage_to_internal(omessage_from_internal(m)->Ok_0) == Ok::<_, Seq<char>>(m),
{
    law_content_round_trip(m.content);
}

/// A list of messages whose contents round-trip converts to the OpenAI shape
/// message by message, and back to the same list.
pub proof fn law_messages_round_trip(ms: Seq<MessageView>)
    requires
        forall|i: int| 0 <= i < ms.len() ==> content_round_trips(#[trigger] ms[i].content),
    ensures
        collect_results(ms.map_values(|m: MessageView| omessage_from_internal(m))) is Ok,
        collect_results(
            collect_results(ms.map_values(|m: MessageView| omessage_from_internal(m)))->Ok_0.map_values(
                |o: OMessageView| omessage_to_internal(o),
            ),
        ) == Ok::<_, Seq<char>>(ms),
{
    let ps = ms.map_values(|m: MessageView| omessage_from_internal(m));
    assert forall|i: int| 0 <= i < ps.len() implies (#[trigger] ps[i]) is Ok by {
        law_message_round_trip(ms[i]);
    }
    lemma_collect_results_all_ok(ps);
    let os = Seq::new(ps.len(), |i: int| ps[i]->Ok_0);
    let qs = os.map_values(|o: OMessageView| omessage_to_internal(o));
    assert forall|i: int| 0 <= i < qs.len() implies (#[trigger] qs[i]) == Ok::<_, Seq<char>>(
        ms[i],
    ) by {
        law_message_round_trip(ms[i]);
    }
    lemma_collect_results_all_ok(qs);
    assert(Seq::new(qs.len(), |i: int| qs[i]->Ok_0) =~= ms);
}

/// An OpenAI item in the form that `from_internal` gives: a `text` item, or
/// an `image_url` item with detail `high` whose URL is exactly the data URL
/// of an image of a parsed subtype with base64 content.
pub open spec fn oitem_is_canonical(v: OContentArrayItemView) -> bool {
    match v {
        OContentArrayItemView::Text { content_type, .. } => content_type == text_type(),
        OContentArrayItemView::Image { content_type, url, detail } => {
            &&& content_type == image_url_type()
            &&& detail == high_detail()
            &&& exists|t: Seq<char>, c: Seq<char>|
                {
                    &&& #[trigger] image_data_url(t, c) == url
                    &&& image_prefix().is_prefix_of(t)
                    &&& is_parsed_image_subtype(t.skip(6))
                    &&& is_b64_text(c)
                }
        },
    }
}

/// OpenAI content whose items are all canonical.
pub open spec fn ocontent_is_canonical(c: OMessageContentView) -> bool {
    match c {
        OMessageContentView::ContentString(_) => true,
        OMessageContentView::ContentArray(items) => forall|i: int|
            0 <= i < items.len() ==> #[trigger] oitem_is_canonical(items[i]),
    }
}

proof fn lemma_oitem_round_trip(v: OContentArrayItemView)
    requires
        oitem_is_canonical(v),
    ensures
        oitem_to_internal(v) is Ok,
        oitem_from_internal(oitem_to_internal(v)->Ok_0) == Ok::<_, Seq<char>>(v),
{
    if let OContentArrayItemView::Image { url, .. } = v {
        let (t, c) = choose|t: Seq<char>, c: Seq<char>|
            {
                &&& #[trigger] image_data_url(t, c) == url
                &&& image_prefix().is_prefix_of(t)
                &&& is_parsed_image_subtype(t.skip(6))
                &&& is_b64_text(c)
            };
        lemma_data_url_captures(t, c);
        assert(t != text_type()) by {
            assert(t.len() >= 6);
        }
    }
}

/// OpenAI content in canonical form converts to the internal shape, and
/// converting the result back gives the content again.
pub proof fn law_openai_content_round_trip(c: OMessageContentView)
    requires
        ocontent_is_canonical(c),
    ensures
        ocontent_to_internal(c) is Ok,
        ocontent_from_internal(ocontent_to_internal(c)->Ok_0) == Ok::<_, Seq<char>>(c),
{
    if let OMessageContentView::ContentArray(items) = c {
        let ps = items.map_values(|v: OContentArrayItemView| oitem_to_internal(v));
        assert forall|i: int| 0 <= i < ps.len() implies (#[trigger] ps[i]) is Ok by {
            lemma_oitem_round_trip(items[i]);
        }
        lemma_collect_results_all_ok(ps);
        let ins = Seq::new(ps.len(), |i: int| ps[i]->Ok_0);
        let qs = ins.map_values(|v: (Seq<char>, Seq<char>)| oitem_from_internal(v));
        assert forall|i: int| 0 <= i < qs.len() implies (#[trigger] qs[i]) == Ok::<_, Seq<char>>(
            items[i],
        ) by {
            lemma_oitem_round_trip(items[i]);
        }
        lemma_collect_results_all_ok(qs);
        assert(Seq::new(qs.len(), |i: int| qs[i]->Ok_0) =~= items);
    }
}

/// An OpenAI message with canonical content converts to the internal shape,
/// and back to the same message.
pub proof fn law_openai_message_round_trip(m: OMessageView)
    requires
        ocontent_is_canonical(m.content),
    ensures
        omessage_to_internal(m) is Ok,
        omessage_from_internal(omessage_to_internal(m)->Ok_0) == Ok::<_, Seq<char>>(m),
{
    law_openai_content_round_trip(m.content);
}

/// An internal item converts to the OpenAI shape exactly when
/// `ContentArrayItem::new` accepts its type: `text` or `image/...`.
pub proof fn law_convertible_iff_valid(item: (Seq<char>, Seq<char>))
    ensures
        oitem_from_internal(item) is Ok <==> new_item(item.0, item.1) is Ok,
{
}

/// Each direction of the conversion keeps the role, the tool calls and the
/// tool call id of a message as they are, and fails exactly when the
/// content cannot be converted.
pub proof fn law_conversion_keeps_fields(m: MessageView, o: OMessageView)
    ensures
        omessage_from_internal(m) is Ok <==> ocontent_from_internal(m.content) is Ok,
        omessage_from_internal(m) matches Ok(r) ==> {
            &&& r.role == m.role
            &&& r.content == ocontent_from_internal(m.content)->Ok_0
            &&& r.tool_calls == m.tool_calls
            &&& r.tool_call_id == m.tool_call_id
        },
        omessage_to_internal(o) is Ok <==> ocontent_to_internal(o.content) is Ok,
        omessage_to_internal(o) matches Ok(r) ==> {
            &&& r.role == o.role
            &&& r.content == ocontent_to_internal(o.content)->Ok_0
            &&& r.tool_calls == o.tool_calls
            &&& r.tool_call_id == o.tool_call_id
        },
{
}

/// Converting a list to the OpenAI shape keeps every message at its
/// position with its role, tool calls and tool call id.
pub proof fn law_messages2openai_keeps_roles(ms: Seq<MessageView>)
    ensures
        collect_results(ms.map_values(|m: MessageView| omessage_from_internal(m))) matches Ok(v)
            ==> {
            &&& v.len() == ms.len()
            &&& forall|i: int|
                0 <= i < ms.len() ==> {
                    &&& (#[trigger] v[i]).role == ms[i].role
                    &&& v[i].tool_calls == ms[i].tool_calls
                    &&& v[i].tool_call_id == ms[i].tool_call_id
                }
        },
{
    let rs = ms.map_values(|m: MessageView| omessage_from_internal(m));
    lemma_collect_results_values(rs);
    if let Ok(v) = collect_results(rs) {
        assert forall|i: int| 0 <= i < ms.len() implies (#[trigger] v[i]).role == ms[i].role
            && v[i].tool_calls == ms[i].tool_calls && v[i].tool_call_id == ms[i].tool_call_id by {
            assert(rs[i] == Ok::<_, Seq<char>>(v[i]));
            law_conversion_keeps_fields(ms[i], v[i]);
        }
    }
}

} // verus!

//! The recognition service: prompt construction and the flow from image
//! payloads to a parsed record, over the chat collaborator.
use vstd::prelude::*;

use crate::common::ServiceError;
use crate::llm_api::{ChatCompletionRequest, ContentPart, ImageContent, ImageUrl, LLMError, Message, TextContent, LLM};
use crate::model::Sport;
use crate::xml::{parse_sport_xml_spec, resolved_sport, SportXMLV};

verus! {

/// A sample document of the swimming shape, shown to the recognizer.
pub const SAMPLE_XML_SWIMMING: &'static str = "<sport><type>Swimming</type><start_time>2025-11-05 20:02:00</start_time><calories>200</calories><distance_meter>1000</distance_meter><duration_second>600</duration_second><heart_rate_avg>120</heart_rate_avg><heart_rate_max>150</heart_rate_max><pace_average>3'59''</pace_average><extra><main_stroke>freestyle</main_stroke><stroke_avg>20</stroke_avg><swolf_avg>80</swolf_avg></extra><tracks><distance_meter>25</distance_meter><duration_second>30</duration_second><pace_average>4'00''</pace_average><extra><main_stroke>freestyle</main_stroke><stroke_avg>20</stroke_avg><swolf_avg>80</swolf_avg></extra></tracks><tracks><distance_meter>25</distance_meter><duration_second>40</duration_second><pace_average>4'00''</pace_average><extra><main_stroke>freestyle</main_stroke><stroke_avg>20</stroke_avg><swolf_avg>80</swolf_avg></extra></tracks></sport>";

/// A sample document of the running shape, shown to the recognizer.
pub const SAMPLE_XML_RUNNING: &'static str = "<sport><type>Running</type><start_time>2025-05-17 20:28:00</start_time><calories>291</calories><distance_meter>4820</distance_meter><duration_second>1872</duration_second><heart_rate_avg>158</heart_rate_avg><heart_rate_max>172</heart_rate_max><pace_average>6'29''</pace_average><extra><speed_avg>9.26</speed_avg><cadence_avg>164</cadence_avg><stride_length_avg>94</stride_length_avg><steps_total>5122</steps_total><pace_min>6'08''</pace_min><pace_max>6'22''</pace_max></extra><tracks><distance_meter>1000</distance_meter><duration_second>377</duration_second><pace_average>6'17''</pace_average></tracks><tracks><distance_meter>1000</distance_meter><duration_second>368</duration_second><pace_average>6'08''</pace_average></tracks><tracks><distance_meter>1000</distance_meter><duration_second>378</duration_second><pace_average>6'18''</pace_average></tracks><tracks><distance_meter>1000</distance_meter><duration_second>382</duration_second><pace_average>6'22''</pace_average></tracks><tracks><distance_meter>820</distance_meter><duration_second>367</duration_second><pace_average>6'07''</pace_average></tracks></sport>";

/// The prompt builder.
pub struct ImageParser;

impl ImageParser {
    /// The system message: the task description and one sample document
    /// per shape.
    pub fn system_prompt() -> (r: Message)
        ensures
            r.role@ == "system"@,
            r.content@.len() == 1,
            r.content@[0] matches ContentPart::Text(tc) && tc.kind@ == "text"@ && tc.text@
                == "你是图片文字识别员,根据图片内容输出XML。不同运动类型请输出对应的extra字段。示例(请根据实际类型选择其一):\n游泳示例:\n"@
                + SAMPLE_XML_SWIMMING@ + "\n跑步示例:\n"@ + SAMPLE_XML_RUNNING@
                + "\n要求: 1) 按示例字段命名 2) tracks为分段数组 3) 缺失字段请忽略"@,
    {
        let mut text = String::new();
        text.append(
            "你是图片文字识别员,根据图片内容输出XML。不同运动类型请输出对应的extra字段。示例(请根据实际类型选择其一):\n游泳示例:\n",
        );
        text.append(SAMPLE_XML_SWIMMING);
        text.append("\n跑步示例:\n");
        text.append(SAMPLE_XML_RUNNING);
        text.append("\n要求: 1) 按示例字段命名 2) tracks为分段数组 3) 缺失字段请忽略");
        let mut content: Vec<ContentPart> = Vec::new();
        content.push(ContentPart::Text(TextContent { kind: "text".to_owned(), text }));
        Message { role: "system".to_owned(), content }
    }

    /// The user message: every image payload, then the instruction.
    pub fn user_prompt(base64_data: Vec<String>) -> (r: Message)
        ensures
            r.role@ == "user"@,
            r.content@.len() == base64_data@.len() + 1,
            forall|i: int|
                0 <= i < base64_data@.len() ==> (#[trigger] r.content@[i] matches
                    ContentPart::Image(ic) && ic.kind@ == "image_url"@ && ic.image_url.url@
                    == base64_data@[i]@),
            r.content@[base64_data@.len() as int] matches ContentPart::Text(tc) && tc.kind@
                == "text"@ && tc.text@ == "请读取图中的数据"@,
    {
        let mut content: Vec<ContentPart> = Vec::new();
        let n = base64_data.len();
        let data = base64_data;
        let mut i: usize = 0;
        while i < n
            invariant
                i <= n,
                data@.len() == n,
                content@.len() == i,
                forall|j: int|
                    0 <= j < i ==> (#[trigger] content@[j] matches ContentPart::Image(ic)
                        && ic.kind@ == "image_url"@ && ic.image_url.url@ == data@[j]@),
            decreases n - i,
        {
            let url = data[i].clone();
            content.push(
                ContentPart::Image(
                    ImageContent { kind: "image_url".to_owned(), image_url: ImageUrl { url } },
                ),
            );
            i += 1;
        }
        content.push(
            ContentPart::Text(
                TextContent { kind: "text".to_owned(), text: "请读取图中的数据".to_owned() },
            ),
        );
        Message { role: "user".to_owned(), content }
    }

    /// The whole request: the system message, then the user message.
    pub fn create_chat_completion_request(base64_data: Vec<String>) -> (r: ChatCompletionRequest)
        ensures
            r.messages@.len() == 2,
            r.messages@[0].role@ == "system"@,
            r.messages@[1].role@ == "user"@,
            r.messages@[1].content@.len() == base64_data@.len() + 1,
            forall|i: int|
                0 <= i < base64_data@.len() ==> (#[trigger] r.messages@[1].content@[i] matches
                    ContentPart::Image(ic) && ic.image_url.url@ == base64_data@[i]@),
    {
        let mut messages: Vec<Message> = Vec::new();
        messages.push(ImageParser::system_prompt());
        messages.push(ImageParser::user_prompt(base64_data));
        ChatCompletionRequest { messages }
    }
}

/// A structured failure of the recognition flow.
#[derive(Debug, Clone)]
pub struct ErrorResponse {
    pub code: String,
    pub message: String,
    pub details: Option<String>,
}

/// The recognition answer: the parsed payload on success.
#[derive(Debug, Clone)]
pub struct AIResponse<T> {
    pub success: bool,
    pub data: Option<T>,
    pub error: Option<ErrorResponse>,
    pub request_id: String,
}

/// A free-text generation request.
#[derive(Debug, Clone)]
pub struct TextGenerationRequest {
    pub messages: String,
}

/// Token accounting of one chat call.
#[derive(Debug, Clone, Copy)]
pub struct TokenUsage {
    pub prompt_tokens: u32,
    pub completion_tokens: u32,
    pub total_tokens: u32,
}

/// The recognition answer as the HTTP surface carries it.
#[derive(Debug, Clone)]
pub struct AIResponseText(pub AIResponse<Sport>);

/// The recognition service around a chat collaborator.
pub struct AIService<L: LLM> {
    pub llm: L,
}

fn map_llm_error(e: LLMError) -> (r: ServiceError)
    ensures
        r.code == 400 || r.code == 500 || r.code == 502 || r.code == 504,
{
    match e {
        LLMError::LLMAuthenticationError(msg) => ServiceError { code: 502, message: msg },
        LLMError::TimeoutError(msg) => ServiceError { code: 504, message: msg },
        LLMError::ValidationError(msg) => ServiceError { code: 400, message: msg },
        LLMError::APIFailure(msg) => ServiceError { code: 502, message: msg },
        LLMError::InternalError(msg) => ServiceError { code: 500, message: msg },
        LLMError::ConfigurationError(msg) => ServiceError { code: 500, message: msg },
    }
}

impl<L: LLM> AIService<L> {
    /// Builds the service around exactly the given chat collaborator.
    pub fn with_llm(llm: L) -> (r: Self)
        ensures
            r.llm == llm,
    {
        AIService { llm }
    }

    /// Recognizes a record from image payloads: builds the prompt, asks
    /// the collaborator, and parses whatever text came back as an XML
    /// document. A chat failure maps to its cause's code; text that is
    /// not a record document fails with 422.
    pub fn sports_image_recognition(&mut self, base64_data: Vec<String>) -> (r: Result<
        AIResponse<Sport>,
        ServiceError,
    >)
        ensures
            match r {
                Ok(resp) => {
                    &&& resp.success
                    &&& resp.error is None
                    &&& resp.data matches Some(sp) && exists|content: Seq<char>|
                        {
                            &&& #[trigger] parse_sport_xml_spec(content) matches Some(raw)
                            &&& crate::timeparse::parse_civil_spec(raw.start_time) is Some
                            &&& sp@ == resolved_sport(raw, sp@.start_time)
                        }
                },
                Err(e) => e.code == 400 || e.code == 422 || e.code == 500 || e.code == 502
                    || e.code == 504,
            },
    {
        let request_id = crate::common::get_current_timestamp();
        let chat_request = ImageParser::create_chat_completion_request(base64_data);
        let content = match self.llm.chat(chat_request) {
            Ok(c) => c,
            Err(e) => {
                return Err(map_llm_error(e));
            },
        };
        let sport = match Sport::parse_from_xml(content.as_str()) {
            Ok(s) => s,
            Err(e) => {
                return Err(ServiceError { code: 422, message: e });
            },
        };
        proof {
            assert(parse_sport_xml_spec(content@) is Some);
        }
        Ok(
            AIResponse {
                success: true,
                data: Some(sport),
                error: None,
                request_id: crate::numtext::u64_to_string(request_id),
            },
        )
    }
}

} // verus!

//! Chat messages, token accounting and deterministic mock data for the
//! simulation worker's `OpenRouter` calls.
use vstd::prelude::*;

use crate::sim::config::SimConfig;
use crate::text::{decimal, str_equals, string_of, usize_to_decimal};

verus! {

/// Token usage from a single `OpenRouter` API call.
#[derive(Debug, Clone, Copy, Default)]
pub struct Usage {
    pub prompt_tokens: u32,
    pub completion_tokens: u32,
    pub total_tokens: u32,
}

impl Usage {
    /// No tokens used.
    pub fn zero() -> (r: Usage)
        ensures
            r.prompt_tokens == 0 && r.completion_tokens == 0 && r.total_tokens == 0,
    {
        Usage { prompt_tokens: 0, completion_tokens: 0, total_tokens: 0 }
    }

    /// Accumulate the usage of another call (`+=`).
    pub fn add_assign(&mut self, rhs: Usage)
        requires
            old(self).prompt_tokens + rhs.prompt_tokens <= u32::MAX,
            old(self).completion_tokens + rhs.completion_tokens <= u32::MAX,
            old(self).total_tokens + rhs.total_tokens <= u32::MAX,
        ensures
            final(self).prompt_tokens == old(self).prompt_tokens + rhs.prompt_tokens,
            final(self).completion_tokens == old(self).completion_tokens + rhs.completion_tokens,
            final(self).total_tokens == old(self).total_tokens + rhs.total_tokens,
    {
        self.prompt_tokens = self.prompt_tokens + rhs.prompt_tokens;
        self.completion_tokens = self.completion_tokens + rhs.completion_tokens;
        self.total_tokens = self.total_tokens + rhs.total_tokens;
    }
}

/// A single chat message in the `OpenRouter` request/response.
pub struct ChatMessage {
    pub role: String,
    pub content: String,
}

/// The user prompt asking for `rooms_needed` rooms: the prompt template with
/// its single `{N}` placeholder replaced by the decimal count.
pub open spec fn spec_user_prompt(rooms_needed: nat) -> Seq<char> {
    "Generate exactly "@ + decimal(rooms_needed) + " community governance rooms. Each room must have 2-3 polls, and each poll must have 3-5 dimensions.\n\nRespond with ONLY valid JSON matching this schema:\n{\n  \"rooms\": [\n    {\n      \"name\": \"Room Name\",\n      \"description\": \"Room description\",\n      \"polls\": [\n        {\n          \"question\": \"Poll question?\",\n          \"description\": \"Poll description\",\n          \"dimensions\": [\n            {\n              \"name\": \"Dimension Name\",\n              \"description\": \"What this dimension measures\",\n              \"min\": 0.0,\n              \"max\": 10.0,\n              \"min_label\": \"Low end label\",\n              \"max_label\": \"High end label\"\n            }\n          ]\n        }\n      ]\n    }\n  ]\n}"@
}

/// Build the system and user messages for the LLM request.
pub fn build_messages(config: &SimConfig, rooms_needed: usize) -> (messages: Vec<ChatMessage>)
    ensures
        messages.len() == 2,
        messages[0].role@ == "system"@,
        messages[0].content@ == config.system_prompt@,
        messages[1].role@ == "user"@,
        messages[1].content@ == spec_user_prompt(rooms_needed as nat),
{
    let mut user_content = string_of("Generate exactly ");
    let count = usize_to_decimal(rooms_needed);
    user_content.append(count.as_str());
    user_content.append(" community governance rooms. Each room must have 2-3 polls, and each poll must have 3-5 dimensions.\n\nRespond with ONLY valid JSON matching this schema:\n{\n  \"rooms\": [\n    {\n      \"name\": \"Room Name\",\n      \"description\": \"Room description\",\n      \"polls\": [\n        {\n          \"question\": \"Poll question?\",\n          \"description\": \"Poll description\",\n          \"dimensions\": [\n            {\n              \"name\": \"Dimension Name\",\n              \"description\": \"What this dimension measures\",\n              \"min\": 0.0,\n              \"max\": 10.0,\n              \"min_label\": \"Low end label\",\n              \"max_label\": \"High end label\"\n            }\n          ]\n        }\n      ]\n    }\n  ]\n}");
    let mut messages: Vec<ChatMessage> = Vec::new();
    messages.push(ChatMessage { role: string_of("system"), content: config.system_prompt.clone() });
    messages.push(ChatMessage { role: string_of("user"), content: user_content });
    messages
}

/// Response from Phase 1: company curation LLM call.
pub struct CompanyCuration {
    pub companies: Vec<CuratedCompany>,
}

/// A single company selected by the curation LLM.
pub struct CuratedCompany {
    pub ticker: String,
    pub name: String,
    pub relevance_hook: String,
}

/// Response from Phase 2: per-company evidence LLM call.
///
/// The dimensions are kept as `(name, evidence)` pairs with distinct names.
pub struct CompanyEvidence {
    pub relevance_hook: String,
    pub dimensions: Vec<(String, DimensionEvidence)>,
}

/// Pro/con evidence for a single ethical dimension.
pub struct DimensionEvidence {
    pub pro: Vec<String>,
    pub con: Vec<String>,
}

/// The dimension names of `e`, in order.
pub open spec fn dimension_names(e: &CompanyEvidence) -> Seq<Seq<char>> {
    e.dimensions@.map_values(|d: (String, DimensionEvidence)| d.0@)
}

/// No dimension name occurs twice.
pub open spec fn has_distinct_dimensions(e: &CompanyEvidence) -> bool {
    forall|i: int, j: int|
        0 <= i < j < e.dimensions@.len() ==> #[trigger] e.dimensions@[i].0@
            != #[trigger] e.dimensions@[j].0@
}

impl CompanyEvidence {
    /// The evidence recorded for the dimension called `name`, if any.
    pub fn dimension(&self, name: &str) -> (r: Option<&DimensionEvidence>)
        ensures
            r matches Some(d) ==> exists|i: int|
                0 <= i < self.dimensions@.len() && self.dimensions@[i].0@ == name@
                    && #[trigger] self.dimensions@[i].1 == *d,
            r is None ==> forall|i: int|
                0 <= i < self.dimensions@.len() ==> #[trigger] self.dimensions@[i].0@ != name@,
    {
        let mut i: usize = 0;
        while i < self.dimensions.len()
            invariant
                i <= self.dimensions@.len(),
                forall|j: int| 0 <= j < i ==> #[trigger] self.dimensions@[j].0@ != name@,
            decreases self.dimensions@.len() - i,
        {
            if str_equals(self.dimensions[i].0.as_str(), name) {
                return Some(&self.dimensions[i].1);
            }
            i += 1;
        }
        None
    }
}

/// System prompt of the company curation call.
pub open spec fn spec_curation_system() -> Seq<char> {
    "You are a research analyst selecting companies for an ethical evaluation platform. Your job is to identify S&P 500 companies that deeply affect people's daily lives but have low brand awareness. Deprioritize household tech and retail names (Apple, Amazon, Google, Walmart) — everyone already has opinions on those. Prioritize companies where users would say \"I had no idea they were involved in that.\""@
}

/// System prompt of the company evidence call.
pub open spec fn spec_evidence_system() -> Seq<char> {
    "You are a balanced research analyst providing factual context for ethical evaluation. For each dimension, provide 1-2 claims supporting the positive end and 1-2 claims supporting the negative end. Claims should be one sentence, factual in tone, and specific to the company. Include a source attribution if you can cite a specific report or organization; otherwise omit the source."@
}

/// User prompt asking for `count` companies.
pub open spec fn spec_curation_prompt(count: nat) -> Seq<char> {
    "Identify exactly "@ + decimal(count) + " S&P 500 companies ranked by surprising personal relevance — \\\ncompanies that deeply affect everyday life but that most people wouldn't recognize by name.\n\nRespond with ONLY valid JSON matching this schema:\n{\n  \"companies\": [\n    {\n      \"ticker\": \"SYY\",\n      \"name\": \"Sysco Corporation\",\n      \"relevance_hook\": \"Supplies food ingredients to nearly every restaurant and hospital cafeteria in the US.\"\n    }\n  ]\n}"@
}

/// User prompt asking for evidence on one company.
pub open spec fn spec_evidence_prompt(company_name: Seq<char>, ticker: Seq<char>) -> Seq<char> {
    "Provide ethical evidence for "@ + company_name + " ("@ + ticker + ") across these five dimensions:\n\n1. Labor Practices (Exploitative ↔ Exemplary)\n2. Environmental Impact (Destructive ↔ Regenerative)\n3. Consumer Trust (Deceptive ↔ Transparent)\n4. Community Impact (Extractive ↔ Invested)\n5. Corporate Governance (Self-Serving ↔ Accountable)\n\nRespond with ONLY valid JSON matching this schema:\n{\n  \"relevance_hook\": \"One sentence explaining how this company affects daily life.\",\n  \"dimensions\": {\n    \"Labor Practices\": {\n      \"pro\": [\"Positive claim about labor.\"],\n      \"con\": [\"Negative claim about labor.\"]\n    },\n    \"Environmental Impact\": {\n      \"pro\": [\"Positive environmental claim.\"],\n      \"con\": [\"Negative environmental claim.\"]\n    },\n    \"Consumer Trust\": {\n      \"pro\": [\"Positive consumer trust claim.\"],\n      \"con\": [\"Negative consumer trust claim.\"]\n    },\n    \"Community Impact\": {\n      \"pro\": [\"Positive community claim.\"],\n      \"con\": [\"Negative community claim.\"]\n    },\n    \"Corporate Governance\": {\n      \"pro\": [\"Positive governance claim.\"],\n      \"con\": [\"Negative governance claim.\"]\n    }\n  }\n}"@
}

/// Messages of the company curation call for `count` companies.
pub fn build_brand_curation_messages(count: usize) -> (messages: Vec<ChatMessage>)
    ensures
        messages.len() == 2,
        messages[0].role@ == "system"@,
        messages[0].content@ == spec_curation_system(),
        messages[1].role@ == "user"@,
        messages[1].content@ == spec_curation_prompt(count as nat),
{
    let mut user_content = string_of("Identify exactly ");
    let n = usize_to_decimal(count);
    user_content.append(n.as_str());
    user_content.append(" S&P 500 companies ranked by surprising personal relevance — \\\ncompanies that deeply affect everyday life but that most people wouldn't recognize by name.\n\nRespond with ONLY valid JSON matching this schema:\n{\n  \"companies\": [\n    {\n      \"ticker\": \"SYY\",\n      \"name\": \"Sysco Corporation\",\n      \"relevance_hook\": \"Supplies food ingredients to nearly every restaurant and hospital cafeteria in the US.\"\n    }\n  ]\n}");
    let mut messages: Vec<ChatMessage> = Vec::new();
    messages.push(ChatMessage { role: string_of("system"), content: string_of("You are a research analyst selecting companies for an ethical evaluation platform. Your job is to identify S&P 500 companies that deeply affect people's daily lives but have low brand awareness. Deprioritize household tech and retail names (Apple, Amazon, Google, Walmart) — everyone already has opinions on those. Prioritize companies where users would say \"I had no idea they were involved in that.\"") });
    messages.push(ChatMessage { role: string_of("user"), content: user_content });
    messages
}

/// Messages of the evidence call for one company.
pub fn build_brand_evidence_messages(company_name: &str, ticker: &str) -> (messages: Vec<ChatMessage>)
    ensures
        messages.len() == 2,
        messages[0].role@ == "system"@,
        messages[0].content@ == spec_evidence_system(),
        messages[1].role@ == "user"@,
        messages[1].content@ == spec_evidence_prompt(company_name@, ticker@),
{
    let mut user_content = string_of("Provide ethical evidence for ");
    user_content.append(company_name);
    user_content.append(" (");
    user_content.append(ticker);
    user_content.append(") across these five dimensions:\n\n1. Labor Practices (Exploitative ↔ Exemplary)\n2. Environmental Impact (Destructive ↔ Regenerative)\n3. Consumer Trust (Deceptive ↔ Transparent)\n4. Community Impact (Extractive ↔ Invested)\n5. Corporate Governance (Self-Serving ↔ Accountable)\n\nRespond with ONLY valid JSON matching this schema:\n{\n  \"relevance_hook\": \"One sentence explaining how this company affects daily life.\",\n  \"dimensions\": {\n    \"Labor Practices\": {\n      \"pro\": [\"Positive claim about labor.\"],\n      \"con\": [\"Negative claim about labor.\"]\n    },\n    \"Environmental Impact\": {\n      \"pro\": [\"Positive environmental claim.\"],\n      \"con\": [\"Negative environmental claim.\"]\n    },\n    \"Consumer Trust\": {\n      \"pro\": [\"Positive consumer trust claim.\"],\n      \"con\": [\"Negative consumer trust claim.\"]\n    },\n    \"Community Impact\": {\n      \"pro\": [\"Positive community claim.\"],\n      \"con\": [\"Negative community claim.\"]\n    },\n    \"Corporate Governance\": {\n      \"pro\": [\"Positive governance claim.\"],\n      \"con\": [\"Negative governance claim.\"]\n    }\n  }\n}");
    let mut messages: Vec<ChatMessage> = Vec::new();
    messages.push(ChatMessage { role: string_of("system"), content: string_of("You are a balanced research analyst providing factual context for ethical evaluation. For each dimension, provide 1-2 claims supporting the positive end and 1-2 claims supporting the negative end. Claims should be one sentence, factual in tone, and specific to the company. Include a source attribution if you can cite a specific report or organization; otherwise omit the source.") });
    messages.push(ChatMessage { role: string_of("user"), content: user_content });
    messages
}

/// Number of companies in the mock list.
pub const MOCK_COMPANY_COUNT: usize = 5;

/// The `k`-th mock company: ticker, name and relevance hook.
pub open spec fn spec_mock_company(k: int) -> (Seq<char>, Seq<char>, Seq<char>) {
    if k == 0 {
        ("SYY"@, "Sysco Corporation"@, "Supplies food to schools and hospitals."@)
    } else if k == 1 {
        ("CARR"@, "Carrier Global"@, "Makes most commercial HVAC systems."@)
    } else if k == 2 {
        ("RSG"@, "Republic Services"@, "Handles trash and recycling for millions of households."@)
    } else if k == 3 {
        ("MKC"@, "McCormick & Company"@, "Supplies spices and flavorings to nearly every grocery brand."@)
    } else {
        ("CTAS"@, "Cintas Corporation"@, "Provides uniforms and safety gear to workplaces across the US."@)
    }
}

fn mock_company(k: usize) -> (r: (&'static str, &'static str, &'static str))
    requires
        k < MOCK_COMPANY_COUNT,
    ensures
        (r.0@, r.1@, r.2@) == spec_mock_company(k as int),
{
    if k == 0 {
        ("SYY", "Sysco Corporation", "Supplies food to schools and hospitals.")
    } else if k == 1 {
        ("CARR", "Carrier Global", "Makes most commercial HVAC systems.")
    } else if k == 2 {
        ("RSG", "Republic Services", "Handles trash and recycling for millions of households.")
    } else if k == 3 {
        ("MKC", "McCormick & Company", "Supplies spices and flavorings to nearly every grocery brand.")
    } else {
        ("CTAS", "Cintas Corporation", "Provides uniforms and safety gear to workplaces across the US.")
    }
}

/// Number of mock evidence dimensions.
pub const MOCK_DIMENSION_COUNT: usize = 5;

/// The `k`-th mock evidence dimension.
pub open spec fn spec_mock_dimension_name(k: int) -> Seq<char> {
    if k == 0 {
        "Labor Practices"@
    } else if k == 1 {
        "Environmental Impact"@
    } else if k == 2 {
        "Consumer Trust"@
    } else if k == 3 {
        "Community Impact"@
    } else {
        "Corporate Governance"@
    }
}

fn mock_dimension_name(k: usize) -> (r: &'static str)
    requires
        k < MOCK_DIMENSION_COUNT,
    ensures
        r@ == spec_mock_dimension_name(k as int),
{
    if k == 0 {
        "Labor Practices"
    } else if k == 1 {
        "Environmental Impact"
    } else if k == 2 {
        "Consumer Trust"
    } else if k == 3 {
        "Community Impact"
    } else {
        "Corporate Governance"
    }
}

/// The mock list cycled: `count` companies, the `i`-th being mock company `i mod 5`.
pub fn mock_company_curation(count: usize) -> (r: CompanyCuration)
    ensures
        r.companies@.len() == count,
        forall|i: int|
            0 <= i < count ==> {
                let c = #[trigger] r.companies@[i];
                (c.ticker@, c.name@, c.relevance_hook@) == spec_mock_company(i % 5)
            },
{
    let mut companies: Vec<CuratedCompany> = Vec::new();
    let mut i: usize = 0;
    while i < count
        invariant
            i <= count,
            companies@.len() == i,
            forall|j: int|
                0 <= j < i ==> {
                    let c = #[trigger] companies@[j];
                    (c.ticker@, c.name@, c.relevance_hook@) == spec_mock_company(j % 5)
                },
        decreases count - i,
    {
        let (ticker, name, hook) = mock_company(i % MOCK_COMPANY_COUNT);
        companies.push(
            CuratedCompany {
                ticker: string_of(ticker),
                name: string_of(name),
                relevance_hook: string_of(hook),
            },
        );
        i += 1;
    }
    CompanyCuration { companies }
}

/// Relevance hook of the mock evidence for `company_name`.
pub open spec fn spec_mock_hook(company_name: Seq<char>) -> Seq<char> {
    company_name + " affects daily life in ways most people don't realize."@
}

/// Mock evidence: the five fixed dimensions, each with one positive and one
/// negative claim.
pub fn mock_company_evidence(company_name: &str) -> (r: CompanyEvidence)
    ensures
        r.relevance_hook@ == spec_mock_hook(company_name@),
        r.dimensions@.len() == MOCK_DIMENSION_COUNT,
        forall|k: int|
            0 <= k < MOCK_DIMENSION_COUNT ==> {
                let d = #[trigger] r.dimensions@[k];
                &&& d.0@ == spec_mock_dimension_name(k)
                &&& d.1.pro@.len() == 1
                &&& d.1.pro@[0]@ == "Positive claim."@
                &&& d.1.con@.len() == 1
                &&& d.1.con@[0]@ == "Negative claim."@
            },
{
    let mut dimensions: Vec<(String, DimensionEvidence)> = Vec::new();
    let mut k: usize = 0;
    while k < MOCK_DIMENSION_COUNT
        invariant
            k <= MOCK_DIMENSION_COUNT,
            dimensions@.len() == k,
            forall|j: int|
                0 <= j < k ==> {
                    let d = #[trigger] dimensions@[j];
                    &&& d.0@ == spec_mock_dimension_name(j)
                    &&& d.1.pro@.len() == 1
                    &&& d.1.pro@[0]@ == "Positive claim."@
                    &&& d.1.con@.len() == 1
                    &&& d.1.con@[0]@ == "Negative claim."@
                },
        decreases MOCK_DIMENSION_COUNT - k,
    {
        let mut pro: Vec<String> = Vec::new();
        pro.push(string_of("Positive claim."));
        let mut con: Vec<String> = Vec::new();
        con.push(string_of("Negative claim."));
        dimensions.push((string_of(mock_dimension_name(k)), DimensionEvidence { pro, con }));
        k += 1;
    }
    let mut hook = string_of(company_name);
    hook.append(" affects daily life in ways most people don't realize.");
    CompanyEvidence { relevance_hook: hook, dimensions }
}

} // verus!

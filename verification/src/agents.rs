//! The registered research agents. Each agent names itself, the memory
//! scope it commits to, the data sources it needs, and its prompt
//! template; the orchestrator drives it through the agent state machine.

use vstd::prelude::*;
use vstd::string::*;

use crate::orchestrator::{FormatterConfig, LLMCallMode, PromptTemplate};
use crate::scan::csq;
use crate::sources::{AgentDataConfig, DataSource};

verus! {

/// Analyzes the project's core objectives, functional value and system
/// boundaries from the project structure and extracted code insights,
/// optionally informed by the readme and external documentation.
pub struct SystemContextResearcher {
}

impl SystemContextResearcher {
    /// A new researcher instance.
    pub fn new() -> (r: SystemContextResearcher)
        ensures
            true,
    {
        SystemContextResearcher {  }
    }

    /// The agent's identity, as used in memory keys and fingerprints.
    pub fn agent_type(&self) -> (r: String)
        ensures
            r@ == csq("system_context_researcher"),
    {
        String::from_str("system_context_researcher")
    }

    /// The memory scope this agent commits its report to.
    pub fn memory_scope_key(&self) -> (r: String)
        ensures
            r@ == csq("studies_research"),
    {
        String::from_str("studies_research")
    }

    /// The agent's input contract: it cannot run without the project
    /// structure and the extracted code insights; readme content and
    /// external documentation enrich it when available.
    pub fn data_config(&self) -> (r: AgentDataConfig)
        ensures
            r.required_sources@ == seq![DataSource::ProjectStructure, DataSource::CodeInsights],
            r.optional_sources@ == seq![
                DataSource::ReadmeContent,
                DataSource::ConfluencePages,
            ],
    {
        let mut required_sources: Vec<DataSource> = Vec::new();
        required_sources.push(DataSource::ProjectStructure);
        required_sources.push(DataSource::CodeInsights);
        let mut optional_sources: Vec<DataSource> = Vec::new();
        optional_sources.push(DataSource::ReadmeContent);
        optional_sources.push(DataSource::ConfluencePages);
        proof {
            assert(required_sources@ =~= seq![
                DataSource::ProjectStructure,
                DataSource::CodeInsights,
            ]);
            assert(optional_sources@ =~= seq![
                DataSource::ReadmeContent,
                DataSource::ConfluencePages,
            ]);
        }
        AgentDataConfig { required_sources, optional_sources }
    }

    /// The agent's prompt template: structured extraction under the
    /// system-context analysis instructions. Every part is a fixed
    /// constant, the same on every call.
    pub fn prompt_template(&self) -> (r: PromptTemplate)
        ensures
            r.llm_call_mode == LLMCallMode::Extract,
            r.version@ == csq("1"),
            r.formatter_config.labelled_sections,
            r.system_prompt@ == csq(
                "You are a professional software architecture analyst, specializing in project objective and system boundary analysis.\n\nYour task is to analyze and determine based on the provided project information:\n1. The project's core objectives and business value\n2. Project type and technical characteristics\n3. Target user groups and usage scenarios\n4. External system interactions\n5. System boundary definition\n\nYou may have access to existing architecture documentation from external sources (e.g., Confluence).\nIf available, use this documentation to enhance your analysis with established business context and architectural decisions.\nValidate code findings against documented architecture and identify any gaps or inconsistencies.\n\nPlease return the analysis results in structured JSON format.",
            ),
            r.opening_instruction@ == csq(
                "Based on the following research materials, analyze the project's core objectives and system positioning:",
            ),
            r.closing_instruction@ == csq(
                "\n## Analysis Requirements:\n- Accurately identify project type and technical characteristics\n- Clearly define target users and usage scenarios\n- Clearly delineate system boundaries\n- If external documentation is provided, validate code structure against it\n- Identify any gaps between documented architecture and actual implementation\n- Ensure analysis results conform to the C4 architecture model's system context level",
            ),
    {
        PromptTemplate {
            system_prompt: String::from_str(
                "You are a professional software architecture analyst, specializing in project objective and system boundary analysis.\n\nYour task is to analyze and determine based on the provided project information:\n1. The project's core objectives and business value\n2. Project type and technical characteristics\n3. Target user groups and usage scenarios\n4. External system interactions\n5. System boundary definition\n\nYou may have access to existing architecture documentation from external sources (e.g., Confluence).\nIf available, use this documentation to enhance your analysis with established business context and architectural decisions.\nValidate code findings against documented architecture and identify any gaps or inconsistencies.\n\nPlease return the analysis results in structured JSON format.",
            ),
            opening_instruction: String::from_str(
                "Based on the following research materials, analyze the project's core objectives and system positioning:",
            ),
            closing_instruction: String::from_str(
                "\n## Analysis Requirements:\n- Accurately identify project type and technical characteristics\n- Clearly define target users and usage scenarios\n- Clearly delineate system boundaries\n- If external documentation is provided, validate code structure against it\n- Identify any gaps between documented architecture and actual implementation\n- Ensure analysis results conform to the C4 architecture model's system context level",
            ),
            llm_call_mode: LLMCallMode::Extract,
            formatter_config: FormatterConfig::default(),
            version: String::from_str("1"),
        }
    }
}

} // verus!

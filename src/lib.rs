//! Similarity retrieval and ranking for tracked work items: candidate
//! query construction, heuristic relevance scoring, result aggregation and a
//! free-text index over merged pull requests.

pub mod jira_client;
pub mod text;
pub mod issue_contextualizer;
pub mod candidate_query;
pub mod github;
pub mod text_index;


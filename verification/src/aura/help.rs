//! The question put to the model when the user asks for help.
use vstd::prelude::*;
use vstd::string::StringExecFns;

verus! {

/// The retrieved context: each retrieved text followed by a blank line, in order.
pub open spec fn help_context(contents: Seq<Seq<char>>) -> Seq<char>
    decreases contents.len(),
{
    if contents.len() == 0 {
        Seq::empty()
    } else {
        help_context(contents.drop_last()) + contents.last() + "\n\n"@
    }
}

/// The first part of the help prompt, before the retrieved context.
pub open spec fn help_preamble() -> Seq<char> {
    "Use the following context to answer the user's question. If the answer is not contained in the context, say you don't know.\n\nContext:\n"@
}

/// The prompt for a help question: the instructions, the retrieved context, the question.
pub open spec fn help_prompt_text(contents: Seq<Seq<char>>, query: Seq<char>) -> Seq<char> {
    help_preamble() + help_context(contents) + "\nUser Question:\n"@ + query + "\n\nAnswer:"@
}

/// Builds the prompt that asks the model to answer `query` from the retrieved texts only.
pub fn help_prompt(contents: &Vec<String>, query: &str) -> (prompt: String)
    ensures
        prompt@ == help_prompt_text(contents@.map_values(|c: String| c@), query@),
{
    let ghost texts = contents@.map_values(|c: String| c@);
    let mut prompt = String::from_str(
        "Use the following context to answer the user's question. If the answer is not contained in the context, say you don't know.\n\nContext:\n",
    );
    let mut i: usize = 0;
    while i < contents.len()
        invariant
            i <= contents@.len(),
            texts == contents@.map_values(|c: String| c@),
            prompt@ == help_preamble() + help_context(texts.take(i as int)),
        decreases contents@.len() - i,
    {
        assert(texts.take(i as int + 1).drop_last() == texts.take(i as int));
        prompt.append(contents[i].as_str());
        prompt.append("\n\n");
        i = i + 1;
    }
    assert(texts.take(contents@.len() as int) == texts);
    prompt.append("\nUser Question:\n");
    prompt.append(query);
    prompt.append("\n\nAnswer:");
    prompt
}

/// The reply when the memory holds nothing relevant.
pub fn no_context_reply() -> (reply: String)
    ensures
        reply@ == "No relevant context found."@,
{
    String::from_str("No relevant context found.")
}

/// What a help question becomes once the memory has been searched.
#[derive(Debug, Clone)]
pub enum HelpStep {
    /// Nothing relevant was found: this is the reply, and the model is not asked.
    Reply(String),
    /// The prompt to put to the model.
    Ask(String),
}

/// Decides, from the texts the memory returned for `query`, whether the model is asked:
/// with no text the reply is `No relevant context found.`; otherwise the model gets the
/// help prompt built from the texts and the question.
pub fn help_after_search(contents: &Vec<String>, query: &str) -> (step: HelpStep)
    ensures
        contents@.len() == 0 ==> (step matches HelpStep::Reply(r) && r@
            == "No relevant context found."@),
        contents@.len() > 0 ==> (step matches HelpStep::Ask(p) && p@ == help_prompt_text(
            contents@.map_values(|c: String| c@),
            query@,
        )),
{
    if contents.len() == 0 {
        HelpStep::Reply(no_context_reply())
    } else {
        HelpStep::Ask(help_prompt(contents, query))
    }
}

/// The reply when the question could not be embedded.
pub fn no_embedding_reply() -> (reply: String)
    ensures
        reply@ == "No embedding produced for query."@,
{
    String::from_str("No embedding produced for query.")
}

/// The instructions given to the answering agent.
pub fn agent_instructions() -> (s: String)
    ensures
        s@ == "You are a helpful assistant. Answer concisely using only the provided context."@,
{
    String::from_str(
        "You are a helpful assistant. Answer concisely using only the provided context.",
    )
}

} // verus!

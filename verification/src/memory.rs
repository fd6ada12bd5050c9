//! What is sent to the memory service and what comes back from it.
use crate::text::opt_text;
use vstd::prelude::*;

verus! {

/// A search among the memories of a user. The least similarity of a match is
/// given in tenths.
#[derive(Debug)]
pub struct SearchRequest {
    pub user_id: String,
    pub query: String,
    pub top_k: u8,
    pub similarity_tenths: u8,
}

/// A search, over its characters.
pub struct SearchRequestView {
    pub user_id: Seq<char>,
    pub query: Seq<char>,
    pub top_k: u8,
    pub similarity_tenths: u8,
}

impl View for SearchRequest {
    type V = SearchRequestView;

    open spec fn view(&self) -> SearchRequestView {
        SearchRequestView {
            user_id: self.user_id@,
            query: self.query@,
            top_k: self.top_k,
            similarity_tenths: self.similarity_tenths,
        }
    }
}

/// A memory that was found.
#[derive(Debug)]
pub struct SearchMessage {
    pub id: Option<String>,
    pub content: String,
    pub created_at: Option<String>,
    pub updated_at: Option<String>,
}

/// A memory, over its characters.
pub struct SearchMessageView {
    pub id: Option<Seq<char>>,
    pub content: Seq<char>,
    pub created_at: Option<Seq<char>>,
    pub updated_at: Option<Seq<char>>,
}

impl View for SearchMessage {
    type V = SearchMessageView;

    open spec fn view(&self) -> SearchMessageView {
        SearchMessageView {
            id: opt_text(self.id),
            content: self.content@,
            created_at: opt_text(self.created_at),
            updated_at: opt_text(self.updated_at),
        }
    }
}

/// The answer to a search.
#[derive(Debug)]
pub struct SearchResponse {
    pub memories: Vec<SearchMessage>,
}

impl View for SearchResponse {
    type V = Seq<SearchMessageView>;

    open spec fn view(&self) -> Seq<SearchMessageView> {
        self.memories@.map_values(|m: SearchMessage| m@)
    }
}

/// A change to a memory: `correct`, `supplement` or `delete`.
#[derive(Debug)]
pub struct FeedbackRequest {
    pub memory_id: String,
    pub feedback_type: String,
    pub reason: String,
    pub user_id: String,
    pub correction: Option<String>,
}

/// A change to a memory, over its characters.
pub struct FeedbackRequestView {
    pub memory_id: Seq<char>,
    pub feedback_type: Seq<char>,
    pub reason: Seq<char>,
    pub user_id: Seq<char>,
    pub correction: Option<Seq<char>>,
}

impl View for FeedbackRequest {
    type V = FeedbackRequestView;

    open spec fn view(&self) -> FeedbackRequestView {
        FeedbackRequestView {
            memory_id: self.memory_id@,
            feedback_type: self.feedback_type@,
            reason: self.reason@,
            user_id: self.user_id@,
            correction: opt_text(self.correction),
        }
    }
}

/// The answer to a change.
#[derive(Debug)]
pub struct FeedbackResponse {
    pub status: String,
    pub new_content: Option<String>,
    pub message: Option<String>,
}

/// The answer to a change, over its characters.
pub struct FeedbackResponseView {
    pub status: Seq<char>,
    pub new_content: Option<Seq<char>>,
    pub message: Option<Seq<char>>,
}

impl View for FeedbackResponse {
    type V = FeedbackResponseView;

    open spec fn view(&self) -> FeedbackResponseView {
        FeedbackResponseView {
            status: self.status@,
            new_content: opt_text(self.new_content),
            message: opt_text(self.message),
        }
    }
}

/// One message to remember.
#[derive(Debug)]
pub struct AddMessage {
    pub role: String,
    pub content: String,
}

/// A message to remember, over its characters.
pub struct AddMessageView {
    pub role: Seq<char>,
    pub content: Seq<char>,
}

impl View for AddMessage {
    type V = AddMessageView;

    open spec fn view(&self) -> AddMessageView {
        AddMessageView { role: self.role@, content: self.content@ }
    }
}

/// What to remember for a user.
#[derive(Debug)]
pub struct AddRequest {
    pub messages: Vec<AddMessage>,
    pub user_id: String,
}

/// What to remember, over its characters.
pub struct AddRequestView {
    pub messages: Seq<AddMessageView>,
    pub user_id: Seq<char>,
}

impl View for AddRequest {
    type V = AddRequestView;

    open spec fn view(&self) -> AddRequestView {
        AddRequestView {
            messages: self.messages@.map_values(|m: AddMessage| m@),
            user_id: self.user_id@,
        }
    }
}

} // verus!

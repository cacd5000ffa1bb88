use vstd::prelude::*;

verus! {

/// The failures of the service.
pub enum AppError {
    /// An entity is absent; the message says which.
    NotFound(String),
    /// Rejected input, with a message per field.
    ValidationError(Vec<(String, String)>),
    /// An upstream source could not be reached or read.
    ApiError { source: String, api_name: String },
    /// A store failure; its detail stays on the server.
    DatabaseError(String),
    /// The summary image could not be made; its detail stays on the server.
    ImageError(String),
    /// Any other failure; its detail stays on the server.
    Internal(String),
}

/// The JSON string literal that denotes `s`, quotes and escapes included.
pub uninterp spec fn json_quoted(s: Seq<char>) -> Seq<char>;

/// Relies on serde_json's `Display` of `Value::String`: the JSON string
/// literal for `s`.
#[verifier::external_body]
fn json_string(s: &str) -> (r: String)
    ensures
        r@ == json_quoted(s@),
{
    serde_json::Value::String(s.to_string()).to_string()
}

/// The HTTP status of each failure.
pub open spec fn status_of(e: AppError) -> u16 {
    match e {
        AppError::NotFound(_) => 404,
        AppError::ValidationError(_) => 400,
        AppError::ApiError { .. } => 503,
        _ => 500,
    }
}

/// `"Country '<name>' not found"`.
pub open spec fn not_found_text(name: Seq<char>) -> Seq<char> {
    "Country '"@ + name + "' not found"@
}

/// `"Could not fetch data from <api>: <source>"`.
pub open spec fn upstream_text(api_name: Seq<char>, source: Seq<char>) -> Seq<char> {
    "Could not fetch data from "@ + api_name + ": "@ + source
}

/// The members `"key":"value"` of a JSON object, comma separated, in order.
pub open spec fn json_members(entries: Seq<(String, String)>) -> Seq<char>
    decreases entries.len(),
{
    if entries.len() == 0 {
        Seq::empty()
    } else {
        let prefix = json_members(entries.drop_last());
        let member = json_quoted(entries.last().0@) + ":"@ + json_quoted(entries.last().1@);
        if entries.len() == 1 {
            member
        } else {
            prefix + ","@ + member
        }
    }
}

/// The JSON body sent to a client for each failure. Store, image and
/// internal failures get a generic message.
pub open spec fn body_of(e: AppError) -> Seq<char> {
    match e {
        AppError::NotFound(m) => "{\"error\":"@ + json_quoted(m@) + "}"@,
        AppError::ValidationError(d) => "{\"details\":{"@ + json_members(d@)
            + "},\"error\":\"Validation failed\"}"@,
        AppError::ApiError { source, api_name } => "{\"details\":"@ + json_quoted(
            upstream_text(api_name@, source@),
        ) + ",\"error\":\"External data source unavailable\"}"@,
        AppError::ImageError(_) => "{\"error\":\"Image generation failed\"}"@,
        _ => "{\"error\":\"Internal server error\"}"@,
    }
}

/// The message of a missing country.
pub fn not_found_message(name: &str) -> (r: String)
    ensures
        r@ == not_found_text(name@),
{
    let mut s = String::from_str("Country '");
    s.append(name);
    s.append("' not found");
    proof {
        reveal_strlit("Country '");
        reveal_strlit("' not found");
    }
    s
}

fn members_text(entries: &Vec<(String, String)>) -> (r: String)
    ensures
        r@ == json_members(entries@),
{
    let mut s = String::new();
    let mut i: usize = 0;
    while i < entries.len()
        invariant
            i <= entries@.len(),
            s@ == json_members(entries@.subrange(0, i as int)),
        decreases entries@.len() - i,
    {
        let ghost pre = entries@.subrange(0, i + 1);
        assert(pre.drop_last() =~= entries@.subrange(0, i as int));
        if i > 0 {
            s.append(",");
        }
        let k = json_string(entries[i].0.as_str());
        let v = json_string(entries[i].1.as_str());
        s.append(k.as_str());
        s.append(":");
        s.append(v.as_str());
        proof {
            reveal_strlit(",");
            reveal_strlit(":");
            if i == 0 {
                assert(s@ =~= json_members(pre));
            } else {
                assert(s@ =~= json_members(pre));
            }
        }
        i = i + 1;
    }
    assert(entries@.subrange(0, entries@.len() as int) =~= entries@);
    s
}

impl AppError {
    /// The HTTP status of this failure.
    pub fn status_code(&self) -> (r: u16)
        ensures
            r == status_of(*self),
    {
        match self {
            AppError::NotFound(_) => 404,
            AppError::ValidationError(_) => 400,
            AppError::ApiError { .. } => 503,
            AppError::DatabaseError(_) | AppError::Internal(_) | AppError::ImageError(_) => 500,
        }
    }

    /// The JSON body sent to a client for this failure.
    pub fn error_body(&self) -> (r: String)
        ensures
            r@ == body_of(*self),
    {
        match self {
            AppError::NotFound(message) => {
                let mut s = String::from_str("{\"error\":");
                let q = json_string(message.as_str());
                s.append(q.as_str());
                s.append("}");
                proof {
                    reveal_strlit("{\"error\":");
                    reveal_strlit("}");
                }
                s
            },
            AppError::ValidationError(details) => {
                let mut s = String::from_str("{\"details\":{");
                let m = members_text(details);
                s.append(m.as_str());
                s.append("},\"error\":\"Validation failed\"}");
                proof {
                    reveal_strlit("{\"details\":{");
                    reveal_strlit("},\"error\":\"Validation failed\"}");
                }
                s
            },
            AppError::ApiError { source, api_name } => {
                let mut d = String::from_str("Could not fetch data from ");
                d.append(api_name.as_str());
                d.append(": ");
                d.append(source.as_str());
                let mut s = String::from_str("{\"details\":");
                let q = json_string(d.as_str());
                s.append(q.as_str());
                s.append(",\"error\":\"External data source unavailable\"}");
                proof {
                    reveal_strlit("Could not fetch data from ");
                    reveal_strlit(": ");
                    reveal_strlit("{\"details\":");
                    reveal_strlit(",\"error\":\"External data source unavailable\"}");
                }
                s
            },
            AppError::ImageError(_) => {
                let s = String::from_str("{\"error\":\"Image generation failed\"}");
                proof {
                    reveal_strlit("{\"error\":\"Image generation failed\"}");
                }
                s
            },
            _ => {
                let s = String::from_str("{\"error\":\"Internal server error\"}");
                proof {
                    reveal_strlit("{\"error\":\"Internal server error\"}");
                }
                s
            },
        }
    }
}

} // verus!

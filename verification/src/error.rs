use vstd::prelude::*;

verus! {

/// The mathematical value of a [`ParsingError`]: a message, and optionally
/// the source text with the character index at which the error was found.
#[verifier::ext_equal]
pub struct ErrView {
    pub msg: Seq<char>,
    pub base: Option<Seq<char>>,
    pub index: Option<int>,
}

impl ErrView {
    /// An error either carries both the source text and an index into it,
    /// or neither.
    pub open spec fn wf(self) -> bool {
        self.base is Some <==> self.index is Some
    }
}

/// An error found while reading an expression. When it carries the source
/// text and a character index, its display renders the text with a caret
/// under the offending character; otherwise only the message is shown.
#[derive(Debug)]
pub struct ParsingError {
    error: String,
    base: Option<String>,
    index: Option<usize>,
}

impl View for ParsingError {
    type V = ErrView;

    closed spec fn view(&self) -> ErrView {
        ErrView {
            msg: self.error@,
            base: match self.base {
                Some(b) => Some(b@),
                None => None,
            },
            index: match self.index {
                Some(i) => Some(i as int),
                None => None,
            },
        }
    }
}

/// A line of `n` spaces, used to align the caret under the failing index.
pub open spec fn spaces(n: int) -> Seq<char>
    decreases n,
{
    if n <= 0 {
        Seq::empty()
    } else {
        spaces(n - 1).push(' ')
    }
}

/// The text an error displays as: the message line, and, when the error is
/// positioned, the source text followed by a caret line.
pub open spec fn error_text(e: ErrView) -> Seq<char> {
    let head = "Error: "@ + e.msg + "\n"@;
    match (e.index, e.base) {
        (Some(i), Some(b)) => head + b + "\n"@ + spaces(i) + "^"@ + "\n"@,
        _ => head,
    }
}

impl ParsingError {
    /// An error tied to a character index of the source text.
    pub fn indexed(error: String, base: String, index: usize) -> (r: Self)
        ensures
            r@ == (ErrView { msg: error@, base: Some(base@), index: Some(index as int) }),
            r@.wf(),
    {
        Self { error, base: Some(base), index: Some(index) }
    }

    /// An error with a message alone, for stages that no longer know where
    /// in the source text they are.
    pub fn not_indexed(error: String) -> (r: Self)
        ensures
            r@ == (ErrView { msg: error@, base: None::<Seq<char>>, index: None::<int> }),
            r@.wf(),
    {
        Self { error, base: None, index: None }
    }

    /// The error message.
    pub fn message(&self) -> (r: &String)
        ensures
            r@ == self@.msg,
    {
        &self.error
    }

    /// The source text the error points into, when it is positioned.
    pub fn base(&self) -> (r: &Option<String>)
        ensures
            match r {
                Some(b) => self@.base == Some(b@),
                None => self@.base is None,
            },
    {
        &self.base
    }

    /// The character index the error points at, when it is positioned.
    pub fn index(&self) -> (r: Option<usize>)
        ensures
            match r {
                Some(i) => self@.index == Some(i as int),
                None => self@.index is None,
            },
    {
        self.index
    }

    /// Renders the error: the message, and, when positioned, the source
    /// text with a caret line under the failing character.
    pub fn to_text(&self) -> (r: String)
        ensures
            r@ == error_text(self@),
    {
        let mut out = String::new();
        out.append("Error: ");
        out.append(self.error.as_str());
        out.append("\n");
        match (&self.index, &self.base) {
            (Some(i), Some(b)) => {
                out.append(b.as_str());
                out.append("\n");
                let mut j: usize = 0;
                while j < *i
                    invariant
                        j <= *i,
                        out@ == "Error: "@ + self.error@ + "\n"@ + b@ + "\n"@ + spaces(
                            j as int,
                        ),
                    decreases *i - j,
                {
                    out.append(" ");
                    proof {
                        reveal_strlit(" ");
                        assert(out@ =~= "Error: "@ + self.error@ + "\n"@ + b@ + "\n"@ + spaces(
                            j as int + 1,
                        ));
                    }
                    j = j + 1;
                }
                out.append("^");
                out.append("\n");
                proof {
                    assert(out@ =~= error_text(self@));
                }
                out
            },
            _ => {
                proof {
                    assert(out@ =~= error_text(self@));
                }
                out
            },
        }
    }
}

} // verus!

use vstd::prelude::*;

verus! {

/// A source text with the name it is known by.
pub struct Source {
    filename: String,
    content: String,
}

impl Source {
    pub closed spec fn spec_filename(&self) -> Seq<char> {
        self.filename@
    }

    pub closed spec fn spec_content(&self) -> Seq<char> {
        self.content@
    }

    /// A source that came as a string rather than from a file.
    pub fn from_string(content: &str) -> (r: Source)
        ensures
            r.spec_filename() == "__str__"@,
            r.spec_content() == content@,
    {
        Source { filename: "__str__".to_owned(), content: content.to_owned() }
    }

    pub fn get_filename(&self) -> (r: &str)
        ensures
            r@ == self.spec_filename(),
    {
        self.filename.as_str()
    }

    pub fn get_content(&self) -> (r: &str)
        ensures
            r@ == self.spec_content(),
    {
        self.content.as_str()
    }
}

} // verus!

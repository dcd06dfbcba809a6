use vstd::prelude::*;

verus! {

/// A bare package reference that a module specifier is rewritten to.
#[derive(Debug)]
pub struct MappedSpecifier {
    pub name: String,
    pub version: Option<String>,
    pub sub_path: Option<String>,
}

/// The text that a mapped specifier is emitted as: the package name, then
/// `/` and the sub-path when there is one. The version never appears.
pub open spec fn bare_text(name: Seq<char>, sub_path: Option<Seq<char>>) -> Seq<char> {
    match sub_path {
        Some(sub) => name + seq!['/'] + sub,
        None => name,
    }
}

impl MappedSpecifier {
    pub open spec fn spec_sub_path(&self) -> Option<Seq<char>> {
        match self.sub_path {
            Some(s) => Some(s@),
            None => None,
        }
    }

    /// The text of this bare reference in rewritten source.
    pub fn to_specifier_text(&self) -> (r: String)
        ensures
            r@ == bare_text(self.name@, self.spec_sub_path()),
    {
        let mut r = self.name.clone();
        match &self.sub_path {
            Some(sub) => {
                r.append("/");
                r.append(sub.as_str());
                proof { reveal_strlit("/"); }
            },
            None => {},
        }
        r
    }
}

} // verus!

use vstd::prelude::*;

verus! {

/// How a geometry file is read.
#[derive(Clone, Copy, Debug, PartialEq, Eq, Structural)]
pub enum SourceFormat {
    /// A structured description of the volume tree, read by the host.
    Data,
    /// A triangulated surface, shown as a single root volume.
    Stl,
}

pub open spec fn format_spec(ext: Seq<char>) -> Option<SourceFormat> {
    if ext == "json"@ || ext == "toml"@ || ext == "yml"@ || ext == "yaml"@ {
        Some(SourceFormat::Data)
    } else if ext == "stl"@ {
        Some(SourceFormat::Stl)
    } else {
        None
    }
}

/// The format of a geometry file with extension `ext`: a volume tree for
/// json, toml, yml and yaml, a surface for stl, none for any other.
pub fn format_of_extension(ext: &String) -> (r: Option<SourceFormat>)
    ensures
        r == format_spec(ext@),
{
    if *ext == "json".to_owned() || *ext == "toml".to_owned() || *ext == "yml".to_owned() || *ext
        == "yaml".to_owned() {
        Some(SourceFormat::Data)
    } else if *ext == "stl".to_owned() {
        Some(SourceFormat::Stl)
    } else {
        None
    }
}

} // verus!

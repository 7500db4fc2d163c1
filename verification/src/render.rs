use vstd::prelude::*;
use vstd::string::StringExecFns;

verus! {

/// The kind of system that the program runs on.
#[derive(Clone, Copy, Debug, PartialEq, Eq, Structural)]
pub enum Platform {
    Windows,
    MacOs,
    Other,
}

/// The directory that a candidate path starts from.
#[derive(Clone, Copy, Debug, PartialEq, Eq, Structural)]
pub enum Root {
    /// The directory of the resources of the application.
    Resources,
    /// The working directory.
    Working,
    /// The directory of the executable.
    Executable,
}

/// A place where the rendering library may lie: a root and the folders
/// below it, from the outermost on.
#[derive(Debug)]
pub struct Place {
    pub root: Root,
    pub folders: Vec<&'static str>,
}

impl View for Place {
    type V = (Root, Seq<Seq<char>>);

    open spec fn view(&self) -> (Root, Seq<Seq<char>>) {
        (self.root, self.folders@.map_values(|folder: &'static str| folder@))
    }
}

/// The views of a list of places.
pub open spec fn place_views(list: Seq<Place>) -> Seq<(Root, Seq<Seq<char>>)> {
    list.map_values(|place: Place| place@)
}

/// The name of the file of the rendering library on a platform.
pub open spec fn library_name(platform: Platform) -> Seq<char> {
    match platform {
        Platform::Windows => "pdfium.dll"@,
        Platform::MacOs => "libpdfium.dylib"@,
        Platform::Other => "libpdfium.so"@,
    }
}

/// The places under the directory of the resources.
pub open spec fn resource_places() -> Seq<(Root, Seq<Seq<char>>)> {
    seq![
        (Root::Resources, Seq::empty()),
        (Root::Resources, seq!["resources"@]),
        (Root::Resources, seq!["bin"@]),
    ]
}

/// The places under the working directory.
pub open spec fn working_places() -> Seq<(Root, Seq<Seq<char>>)> {
    seq![
        (Root::Working, Seq::empty()),
        (Root::Working, seq!["resources"@]),
        (Root::Working, seq!["src-tauri"@]),
        (Root::Working, seq!["src-tauri"@, "resources"@]),
        (Root::Working, seq![".."@, "src-tauri"@]),
        (Root::Working, seq![".."@, "src-tauri"@, "resources"@]),
    ]
}

/// The places under the directory of the executable.
pub open spec fn executable_places() -> Seq<(Root, Seq<Seq<char>>)> {
    seq![(Root::Executable, Seq::empty()), (Root::Executable, seq!["resources"@])]
}

/// The places to look at, in order: under the resources, then under the
/// working directory if it is known, then beside the executable if that is
/// known.
pub open spec fn places(working: bool, executable: bool) -> Seq<(Root, Seq<Seq<char>>)> {
    resource_places() + (if working {
        working_places()
    } else {
        Seq::empty()
    }) + (if executable {
        executable_places()
    } else {
        Seq::empty()
    })
}

/// The name of the file of the rendering library on a platform.
pub fn library_file_name(platform: Platform) -> (file: &'static str)
    ensures
        file@ == library_name(platform),
{
    match platform {
        Platform::Windows => "pdfium.dll",
        Platform::MacOs => "libpdfium.dylib",
        Platform::Other => "libpdfium.so",
    }
}

fn place(root: Root, first: Option<&'static str>, second: Option<&'static str>, third: Option<
    &'static str,
>) -> (r: Place)
    requires
        first is None ==> second is None,
        second is None ==> third is None,
    ensures
        r@.0 == root,
        r@.1 == (match first {
            Some(a) => seq![a@],
            None => Seq::empty(),
        }) + (match second {
            Some(b) => seq![b@],
            None => Seq::empty(),
        }) + (match third {
            Some(c) => seq![c@],
            None => Seq::empty(),
        }),
{
    let mut folders: Vec<&'static str> = Vec::new();
    if let Some(a) = first {
        folders.push(a);
    }
    if let Some(b) = second {
        folders.push(b);
    }
    if let Some(c) = third {
        folders.push(c);
    }
    let r = Place { root, folders };
    proof {
        assert(r@.1 =~= (match first {
            Some(a) => seq![a@],
            None => Seq::empty(),
        }) + (match second {
            Some(b) => seq![b@],
            None => Seq::empty(),
        }) + (match third {
            Some(c) => seq![c@],
            None => Seq::empty(),
        }));
    }
    r
}

/// The places where the rendering library is looked for, in the order in
/// which they are tried. `working` and `executable` say whether the working
/// directory and the directory of the executable are known.
pub fn library_places(working: bool, executable: bool) -> (list: Vec<Place>)
    ensures
        place_views(list@) == places(working, executable),
{
    let mut list: Vec<Place> = Vec::new();
    list.push(place(Root::Resources, None, None, None));
    list.push(place(Root::Resources, Some("resources"), None, None));
    list.push(place(Root::Resources, Some("bin"), None, None));
    if working {
        list.push(place(Root::Working, None, None, None));
        list.push(place(Root::Working, Some("resources"), None, None));
        list.push(place(Root::Working, Some("src-tauri"), None, None));
        list.push(place(Root::Working, Some("src-tauri"), Some("resources"), None));
        list.push(place(Root::Working, Some(".."), Some("src-tauri"), None));
        list.push(place(Root::Working, Some(".."), Some("src-tauri"), Some("resources")));
    }
    if executable {
        list.push(place(Root::Executable, None, None, None));
        list.push(place(Root::Executable, Some("resources"), None, None));
    }
    proof {
        assert(place_views(list@) =~~= places(working, executable));
    }
    list
}

/// The first candidate that exists, if one does: `found` says of each
/// candidate, in order, whether a file lies there.
pub fn first_existing(found: &Vec<bool>) -> (r: Option<usize>)
    ensures
        match r {
            Some(at) => at < found@.len() && found@[at as int] && forall|i: int|
                0 <= i < at ==> !found@[i],
            None => forall|i: int| 0 <= i < found@.len() ==> !found@[i],
        },
{
    let mut i: usize = 0;
    while i < found.len()
        invariant
            0 <= i <= found.len(),
            forall|j: int| 0 <= j < i ==> !found@[j],
        decreases found.len() - i,
    {
        if found[i] {
            return Some(i);
        }
        i += 1;
    }
    None
}

/// The lines that list the candidates: for each, a hyphen, a space, the
/// path as it is to be shown, and a line feed.
pub open spec fn candidate_lines(candidates: Seq<String>) -> Seq<char>
    decreases candidates.len(),
{
    if candidates.len() == 0 {
        Seq::empty()
    } else {
        candidate_lines(candidates.drop_last()) + "- "@ + candidates.last()@ + "\n"@
    }
}

/// The message for a library that lies at none of the candidates.
pub open spec fn missing_library(library: Seq<char>, candidates: Seq<String>) -> Seq<char> {
    "找不到 "@ + library + "。请下载并放置在以下任一位置：\n"@ + candidate_lines(candidates)
}

/// The message for a rendering library that was found at none of the
/// candidates: it names the file and lists every path that was tried, each
/// as the caller wants it shown.
pub fn missing_library_text(library: &str, candidates: &Vec<String>) -> (text: String)
    ensures
        text@ == missing_library(library@, candidates@),
{
    let mut text = String::from_str("找不到 ");
    text.append(library);
    text.append("。请下载并放置在以下任一位置：\n");
    let ghost head = text@;
    let mut i: usize = 0;
    proof {
        assert(candidates@.take(0) =~= Seq::<String>::empty());
        assert(head + candidate_lines(candidates@.take(0)) =~= head);
    }
    while i < candidates.len()
        invariant
            0 <= i <= candidates.len(),
            text@ == head + candidate_lines(candidates@.take(i as int)),
        decreases candidates.len() - i,
    {
        proof {
            assert(candidates@.take(i + 1).drop_last() =~= candidates@.take(i as int));
        }
        text.append("- ");
        text.append(candidates[i].as_str());
        text.append("\n");
        proof {
            assert(text@ =~= head + candidate_lines(candidates@.take(i + 1)));
        }
        i += 1;
    }
    proof {
        assert(candidates@.take(candidates.len() as int) =~= candidates@);
    }
    text
}

} // verus!

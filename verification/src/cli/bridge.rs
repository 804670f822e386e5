//! How the browser is told of the bridge.

use vstd::prelude::*;
use vstd::string::*;
use crate::file::path::{path_child, SavePath};
use crate::text::texts;

verus! {

/// What the browser is told of the bridge.
pub struct HostManifest {
    pub name: String,
    pub description: String,
    pub path: String,
    pub kind: String,
    pub allowed_origins: Vec<String>,
}

/// The origin of an extension.
pub open spec fn origin(id: Seq<char>) -> Seq<char> {
    "chrome-extension://"@ + id + "/"@
}

/// The origins of extensions.
pub open spec fn origins(ids: Seq<Seq<char>>) -> Seq<Seq<char>> {
    ids.map_values(|id: Seq<char>| origin(id))
}

/// The origins of extensions.
pub fn allowed_origins(extension_ids: &Vec<String>) -> (r: Vec<String>)
    ensures
        texts(r@) == origins(texts(extension_ids@)),
{
    let ghost os = origins(texts(extension_ids@));
    let mut r: Vec<String> = Vec::new();
    assert(texts(r@) =~= os.take(0));
    for i in 0..extension_ids.len()
        invariant
            os == origins(texts(extension_ids@)),
            texts(r@) == os.take(i as int),
    {
        let mut s = "chrome-extension://".to_owned();
        s.append(extension_ids[i].as_str());
        s.append("/");
        assert(s@ == os[i as int]);
        assert(texts(r@.push(s)) =~= texts(r@).push(s@));
        assert(os.take(i + 1) =~= os.take(i as int).push(os[i as int]));
        r.push(s);
    }
    assert(os.take(os.len() as int) =~= os);
    r
}

/// Plans what the browser is told of the bridge at a path, given whether there
/// is one and which extensions may use it. At least one must be named: else any
/// could.
pub fn plan_install(bridge: &str, bridge_exists: bool, extension_ids: &Vec<String>) -> (r: Result<
    HostManifest,
    String,
>)
    ensures
        match r {
            Ok(m) => bridge_exists && extension_ids@.len() > 0 && m.name@ == "com.ggg.bridge"@
                && m.description@ == "ggg URL bridge"@ && m.path@ == bridge@ && m.kind@ == "stdio"@
                && texts(m.allowed_origins@) == origins(texts(extension_ids@)),
            Err(e) => if !bridge_exists {
                e@ == "ggg-bridge.exe not found at "@ + bridge@
                    + "\nBuild it first: cargo build --release -p ggg-bridge"@
            } else {
                extension_ids@.len() == 0 && e@
                    == "At least one --extension-id is required.\nLoad the unpacked extension first, copy the ID from chrome://extensions, then re-run."@
            },
        },
{
    if !bridge_exists {
        let mut s = "ggg-bridge.exe not found at ".to_owned();
        s.append(bridge);
        s.append("\nBuild it first: cargo build --release -p ggg-bridge");
        return Err(s);
    }
    if extension_ids.len() == 0 {
        return Err(
            "At least one --extension-id is required.\nLoad the unpacked extension first, copy the ID from chrome://extensions, then re-run.".to_owned(),
        );
    }
    Ok(
        HostManifest {
            name: "com.ggg.bridge".to_owned(),
            description: "ggg URL bridge".to_owned(),
            path: bridge.to_owned(),
            kind: "stdio".to_owned(),
            allowed_origins: allowed_origins(extension_ids),
        },
    )
}

/// No extension may use the bridge but those that are named.
pub proof fn law_only_named_extensions(ids: Seq<Seq<char>>, o: Seq<char>)
    ensures
        origins(ids).contains(o) <==> exists|i: int|
            0 <= i < ids.len() && o == origin(#[trigger] ids[i]),
        origins(ids).len() == ids.len(),
{
    let os = origins(ids);
    if os.contains(o) {
        let i = choose|i: int| 0 <= i < os.len() && os[i] == o;
        assert(o == origin(ids[i]));
    }
    if exists|i: int| 0 <= i < ids.len() && o == origin(#[trigger] ids[i]) {
        let i = choose|i: int| 0 <= i < ids.len() && o == origin(#[trigger] ids[i]);
        assert(os[i] == o);
    }
}

/// Where what the browser is told stands, given the directory for local data, if
/// there is one.
pub fn manifest_dir(base: Option<SavePath>) -> (r: Result<SavePath, String>)
    ensures
        match base {
            Some(b) => r is Ok && r->Ok_0@ == path_child(b@, "ggg"@),
            None => r is Err && r->Err_0@ == "Could not resolve %LOCALAPPDATA%"@,
        },
{
    match base {
        Some(b) => Ok(b.child("ggg".to_owned())),
        None => Err("Could not resolve %LOCALAPPDATA%".to_owned()),
    }
}

/// Where the bridge stands: where the user says, else beside the program, whose
/// directory is given, if it has one.
pub fn resolve_bridge_path(chosen: Option<SavePath>, beside: Option<SavePath>) -> (r: Result<
    SavePath,
    String,
>)
    ensures
        match chosen {
            Some(p) => r is Ok && r->Ok_0@ == p@,
            None => match beside {
                Some(d) => r is Ok && r->Ok_0@ == path_child(d@, "ggg-bridge.exe"@),
                None => r is Err && r->Err_0@ == "ggg.exe has no parent directory"@,
            },
        },
{
    match chosen {
        Some(p) => Ok(p),
        None => match beside {
            Some(d) => Ok(d.child("ggg-bridge.exe".to_owned())),
            None => Err("ggg.exe has no parent directory".to_owned()),
        },
    }
}

/// The browser is told of the bridge exactly if there is one and an extension is named;
/// only the extensions that are named may use it.
pub proof fn law_plan_install(
    bridge: &str,
    bridge_exists: bool,
    extension_ids: &Vec<String>,
    r: Result<HostManifest, String>,
    o: Seq<char>,
)
    requires
        call_ensures(plan_install, (bridge, bridge_exists, extension_ids), r),
    ensures
        r is Ok <==> bridge_exists && extension_ids@.len() > 0,
        r is Ok ==> r->Ok_0.path@ == bridge@ && r->Ok_0.name@ == "com.ggg.bridge"@ && r->Ok_0.kind@
            == "stdio"@,
        r is Ok ==> (texts(r->Ok_0.allowed_origins@).contains(o) <==> exists|i: int|
            0 <= i < extension_ids@.len() && o == "chrome-extension://"@ + (
            #[trigger] extension_ids@[i])@ + "/"@),
{
    let ids = texts(extension_ids@);
    law_only_named_extensions(ids, o);
    if r is Ok {
        if exists|i: int| 0 <= i < ids.len() && o == origin(#[trigger] ids[i]) {
            let i = choose|i: int| 0 <= i < ids.len() && o == origin(#[trigger] ids[i]);
            assert(o == "chrome-extension://"@ + extension_ids@[i]@ + "/"@);
        }
        if exists|i: int|
            0 <= i < extension_ids@.len() && o == "chrome-extension://"@ + (
            #[trigger] extension_ids@[i])@ + "/"@ {
            let i = choose|i: int|
                0 <= i < extension_ids@.len() && o == "chrome-extension://"@ + (
                #[trigger] extension_ids@[i])@ + "/"@;
            assert(o == origin(ids[i]));
        }
    }
}

/// The bridge is where the user says, or else beside the program.
pub proof fn law_resolve_bridge_path(
    chosen: Option<SavePath>,
    beside: Option<SavePath>,
    r: Result<SavePath, String>,
)
    requires
        call_ensures(resolve_bridge_path, (chosen, beside), r),
    ensures
        r is Ok <==> chosen is Some || beside is Some,
        chosen is Some ==> r->Ok_0@ == chosen->0@,
        chosen is None && beside is Some ==> r->Ok_0@.components == beside->0@.components.push(
            "ggg-bridge.exe"@,
        ),
{
}

} // verus!

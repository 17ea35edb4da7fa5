//! The registry of the crates of the ForgeFlux ecosystem.
use vstd::prelude::*;

verus! {

/// A crate of the ecosystem.
#[derive(Clone, Copy, Debug)]
pub struct CrateInfo {
    pub name: &'static str,
    pub version: &'static str,
    pub description: &'static str,
}

impl View for CrateInfo {
    type V = (Seq<char>, Seq<char>, Seq<char>);

    open spec fn view(&self) -> (Seq<char>, Seq<char>, Seq<char>) {
        (self.name@, self.version@, self.description@)
    }
}

/// The views of a list of crate entries.
pub open spec fn crate_views(v: Seq<CrateInfo>) -> Seq<(Seq<char>, Seq<char>, Seq<char>)> {
    v.map_values(|c: CrateInfo| c@)
}

/// The registry: name, version and description of each crate, in order.
pub open spec fn registry() -> Seq<(Seq<char>, Seq<char>, Seq<char>)> {
    seq![
        ("forge-core"@, "0.1.0"@, "Core types and traits for the ForgeFlux ecosystem"@),
        ("forge-decompose"@, "0.1.0"@, "Decomposition engine: split content into tiles"@),
        ("forge-compose"@, "0.1.0"@, "Composition engine: reassemble tiles back into content"@),
        ("forge-detect"@, "0.1.0"@, "Format detection for input files"@),
        ("forge-meta"@, "0.1.0"@, "Crate registry and metadata for the ForgeFlux ecosystem"@),
        ("forge-pipeline"@, "0.1.0"@, "Pipeline orchestration for multi-step transformations"@),
        ("forge-stats"@, "0.1.0"@, "Tile statistics and analytics"@),
        ("forge"@, "0.1.0"@, "CLI tool tying all forge-* crates together"@),
    ]
}

/// The first registry entry at or after `from` named `name`.
pub open spec fn find_from(name: Seq<char>, from: int) -> Option<(Seq<char>, Seq<char>, Seq<char>)>
    decreases registry().len() - from,
{
    if from < 0 || from >= registry().len() {
        None
    } else if registry()[from].0 == name {
        Some(registry()[from])
    } else {
        find_from(name, from + 1)
    }
}

/// The registry entry named `name`, the first where several are.
pub open spec fn lookup(name: Seq<char>) -> Option<(Seq<char>, Seq<char>, Seq<char>)> {
    find_from(name, 0)
}

/// The search from `from` finds exactly the first entry at or after `from`
/// with the name.
proof fn lemma_find_from(name: Seq<char>, from: int)
    requires
        0 <= from,
    ensures
        match find_from(name, from) {
            Some(e) => e.0 == name && exists|i: int|
                from <= i < registry().len() && registry()[i] == e,
            None => forall|i: int| from <= i < registry().len() ==> registry()[i].0 != name,
        },
    decreases registry().len() - from,
{
    if from < registry().len() && registry()[from].0 != name {
        lemma_find_from(name, from + 1);
    }
}

/// Lookup is by exact name: what it finds carries the name and stands in
/// the registry, and it finds nothing only where no entry carries the name.
pub proof fn law_lookup_is_exact(name: Seq<char>)
    ensures
        lookup(name) matches Some(e) ==> e.0 == name && registry().contains(e),
        lookup(name) is None <==> forall|i: int|
            0 <= i < registry().len() ==> registry()[i].0 != name,
{
    lemma_find_from(name, 0);
    if let Some(e) = lookup(name) {
        let i = choose|i: int| 0 <= i < registry().len() && registry()[i] == e;
        assert(registry()[i] == e);
    }
}

/// The crates of the ecosystem.
pub fn forge_crates() -> (crates: Vec<CrateInfo>)
    ensures
        crate_views(crates@) == registry(),
{
    let crates = vec![
        CrateInfo {
            name: "forge-core",
            version: "0.1.0",
            description: "Core types and traits for the ForgeFlux ecosystem",
        },
        CrateInfo {
            name: "forge-decompose",
            version: "0.1.0",
            description: "Decomposition engine: split content into tiles",
        },
        CrateInfo {
            name: "forge-compose",
            version: "0.1.0",
            description: "Composition engine: reassemble tiles back into content",
        },
        CrateInfo {
            name: "forge-detect",
            version: "0.1.0",
            description: "Format detection for input files",
        },
        CrateInfo {
            name: "forge-meta",
            version: "0.1.0",
            description: "Crate registry and metadata for the ForgeFlux ecosystem",
        },
        CrateInfo {
            name: "forge-pipeline",
            version: "0.1.0",
            description: "Pipeline orchestration for multi-step transformations",
        },
        CrateInfo {
            name: "forge-stats",
            version: "0.1.0",
            description: "Tile statistics and analytics",
        },
        CrateInfo {
            name: "forge",
            version: "0.1.0",
            description: "CLI tool tying all forge-* crates together",
        },
    ];
    assert(crate_views(crates@) =~= registry());
    crates
}

/// The `list` command: every crate of the ecosystem.
pub fn list(args: &[String]) -> (crates: Vec<CrateInfo>)
    ensures
        crate_views(crates@) == registry(),
{
    forge_crates()
}

/// The `info` command: the crate named by the first argument.
pub fn info(args: &[String]) -> (found: Result<CrateInfo, String>)
    ensures
        args.len() == 0 ==> (found matches Err(e) && e@ == "Usage: forge info <crate-name>"@),
        args.len() > 0 ==> match lookup(args[0]@) {
            Some(entry) => (found matches Ok(c) && c@ == entry),
            None => (found matches Err(e) && e@ == "Unknown crate: "@ + args[0]@),
        },
        found matches Ok(c) ==> args.len() > 0 && c.name@ == args[0]@,
{
    if args.len() == 0 {
        return Err(String::from_str("Usage: forge info <crate-name>"));
    }
    let name = &args[0];
    let crates = forge_crates();
    let mut i: usize = 0;
    while i < crates.len()
        invariant
            i <= crates.len(),
            crate_views(crates@) == registry(),
            args.len() > 0,
            *name == args[0],
            lookup(args[0]@) == find_from(args[0]@, i as int),
        decreases crates.len() - i,
    {
        assert(crates@[i as int]@ == registry()[i as int]);
        if String::from_str(crates[i].name) == *name {
            return Ok(crates[i]);
        }
        i = i + 1;
    }
    let mut message = String::from_str("Unknown crate: ");
    message.append(name.as_str());
    Err(message)
}

/// Every listed crate is found by its name: `info` on the name of the `i`th
/// crate of `list` gives that crate.
pub proof fn law_listed_crates_are_found(i: int)
    requires
        0 <= i < registry().len(),
    ensures
        lookup(registry()[i].0) == Some(registry()[i]),
{
    reveal_strlit("forge-core");
    reveal_strlit("forge-decompose");
    reveal_strlit("forge-compose");
    reveal_strlit("forge-detect");
    reveal_strlit("forge-meta");
    reveal_strlit("forge-pipeline");
    reveal_strlit("forge-stats");
    reveal_strlit("forge");
    reveal_with_fuel(find_from, 9);
    let r = registry();
    assert(r[0].0.len() == 10 && r[1].0.len() == 15 && r[2].0.len() == 13 && r[3].0.len() == 12);
    assert(r[4].0.len() == 10 && r[5].0.len() == 14 && r[6].0.len() == 11 && r[7].0.len() == 5);
    assert(r[0].0[6] != r[4].0[6]);
}

} // verus!

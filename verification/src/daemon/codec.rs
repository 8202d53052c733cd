//! Commands and snapshots as JSON text.
use std::sync::Arc;
use vstd::prelude::*;

use crate::daemon::nodes;
use crate::daemon::nodes::{IndexDirectoryView, IndexFileView, XattrView};
use crate::daemon::state::{
    Command, CommandView, ControlState, ControlView, Executor, FileRec, FileRecView, Pool, PoolView,
    SummaryView, TapeSummary,
};
use crate::daemon::state;
use crate::json;
use crate::json::{Fields, Items, Json, JsonView};
use crate::strmap;
use crate::strmap::{Dup, StrMap};
use crate::text;

verus! {

/// A record as an array.
pub open spec fn rec_doc(f: FileRecView) -> JsonView {
    JsonView::Arr(
        seq![
            JsonView::Str(f.path),
            JsonView::Num(f.length),
            JsonView::Str(f.sha256),
            JsonView::Num(f.version.0),
            JsonView::Num(f.version.1),
            JsonView::Bool(f.deleted),
            f.metadata,
        ],
    )
}

/// The record in an array. A missing version is zero, and a record without more is of a file.
pub open spec fn rec_of(j: JsonView) -> Option<FileRecView> {
    if j.text_at(0) is Some && j.num_at(1) is Some && j.text_at(2) is Some {
        Some(
            FileRecView {
                path: j.text_at(0)->0,
                length: j.num_at(1)->0,
                sha256: j.text_at(2)->0,
                version: (
                    if j.num_at(3) is Some {
                        j.num_at(3)->0
                    } else {
                        0
                    },
                    if j.num_at(4) is Some {
                        j.num_at(4)->0
                    } else {
                        0
                    },
                ),
                deleted: j.flag_at(5) == Some(true),
                metadata: match j.elem(6) {
                    Some(m) => m,
                    None => JsonView::Null,
                },
            },
        )
    } else {
        None
    }
}

/// The records in a list of arrays, if each holds one.
pub open spec fn recs_of(s: Seq<JsonView>) -> Option<Seq<FileRecView>> {
    if forall|i: int| 0 <= i < s.len() ==> rec_of(#[trigger] s[i]) is Some {
        Some(s.map_values(|j: JsonView| rec_of(j)->0))
    } else {
        None
    }
}

/// A command as an object.
pub open spec fn command_doc(c: CommandView) -> JsonView {
    let e = Map::<Seq<char>, JsonView>::empty();
    JsonView::Obj(
        match c {
            CommandView::Takeover { node, term } => e.insert(
                "op"@,
                JsonView::Str("takeover"@),
            ).insert("node"@, JsonView::Num(node)).insert("term"@, JsonView::Num(term)),
            CommandView::Fenced { node, round } => e.insert(
                "op"@,
                JsonView::Str("fenced"@),
            ).insert("node"@, JsonView::Num(node)).insert("round"@, JsonView::Num(round)),
            CommandView::Abandoned { node, round, reason } => e.insert(
                "op"@,
                JsonView::Str("abandoned"@),
            ).insert("node"@, JsonView::Num(node)).insert("round"@, JsonView::Num(round)).insert(
                "reason"@,
                JsonView::Str(reason),
            ),
            CommandView::PoolCreate { uuid, name, file_limit } => e.insert(
                "op"@,
                JsonView::Str("pool_create"@),
            ).insert("uuid"@, JsonView::Str(uuid)).insert("name"@, JsonView::Str(name)).insert(
                "file_limit"@,
                JsonView::Num(file_limit),
            ),
            CommandView::TapeAssign { barcode, pool } => e.insert(
                "op"@,
                JsonView::Str("tape_assign"@),
            ).insert("barcode"@, JsonView::Str(barcode)).insert("pool"@, JsonView::Str(pool)),
            CommandView::TapeUnassign { barcode } => e.insert(
                "op"@,
                JsonView::Str("tape_unassign"@),
            ).insert("barcode"@, JsonView::Str(barcode)),
            CommandView::TapeState { barcode, state } => e.insert(
                "op"@,
                JsonView::Str("tape_state"@),
            ).insert("barcode"@, JsonView::Str(barcode)).insert("state"@, JsonView::Str(state)),
            CommandView::TapeReclaim { barcode } => e.insert(
                "op"@,
                JsonView::Str("tape_reclaim"@),
            ).insert("barcode"@, JsonView::Str(barcode)),
            CommandView::TapeReclaimed { barcode, volume_uuid } => e.insert(
                "op"@,
                JsonView::Str("tape_reclaimed"@),
            ).insert("barcode"@, JsonView::Str(barcode)).insert(
                "volume_uuid"@,
                JsonView::Str(volume_uuid),
            ),
            CommandView::CatalogPart { barcode, generation, part, files } => e.insert(
                "op"@,
                JsonView::Str("catalog_part"@),
            ).insert("barcode"@, JsonView::Str(barcode)).insert(
                "generation"@,
                JsonView::Num(generation),
            ).insert("part"@, JsonView::Num(part as u64)).insert(
                "files"@,
                JsonView::Arr(files.map_values(|f: FileRecView| rec_doc(f))),
            ),
            CommandView::TapeCommitted {
                barcode,
                volume_uuid,
                generation,
                files,
                bytes_used,
                bytes_written,
                parts,
                full,
            } => e.insert("op"@, JsonView::Str("tape_committed"@)).insert(
                "barcode"@,
                JsonView::Str(barcode),
            ).insert("volume_uuid"@, JsonView::Str(volume_uuid)).insert(
                "generation"@,
                JsonView::Num(generation),
            ).insert("files"@, JsonView::Num(files)).insert(
                "bytes_used"@,
                JsonView::Num(bytes_used),
            ).insert("bytes_written"@, JsonView::Num(bytes_written)).insert(
                "parts"@,
                JsonView::Num(parts as u64),
            ).insert("full"@, JsonView::Bool(full)),
        },
    )
}

/// The command that an object describes.
pub open spec fn command_of(j: JsonView) -> Option<CommandView> {
    let barcode = j.text_in("barcode"@);
    let node = j.num_in("node"@);
    match j.text_in("op"@) {
        None => None,
        Some(op) => if op == "pool_create"@ {
            if j.text_in("uuid"@) is Some && j.text_in("name"@) is Some && j.num_in(
                "file_limit"@,
            ) is Some {
                Some(
                    CommandView::PoolCreate {
                        uuid: j.text_in("uuid"@)->0,
                        name: j.text_in("name"@)->0,
                        file_limit: j.num_in("file_limit"@)->0,
                    },
                )
            } else {
                None
            }
        } else if op == "tape_assign"@ {
            if barcode is Some && j.text_in("pool"@) is Some {
                Some(
                    CommandView::TapeAssign { barcode: barcode->0, pool: j.text_in("pool"@)->0 },
                )
            } else {
                None
            }
        } else if op == "tape_unassign"@ {
            if barcode is Some {
                Some(CommandView::TapeUnassign { barcode: barcode->0 })
            } else {
                None
            }
        } else if op == "tape_state"@ {
            if barcode is Some && j.text_in("state"@) is Some {
                Some(
                    CommandView::TapeState { barcode: barcode->0, state: j.text_in("state"@)->0 },
                )
            } else {
                None
            }
        } else if op == "tape_reclaim"@ {
            if barcode is Some {
                Some(CommandView::TapeReclaim { barcode: barcode->0 })
            } else {
                None
            }
        } else if op == "tape_reclaimed"@ {
            if barcode is Some && j.text_in("volume_uuid"@) is Some {
                Some(
                    CommandView::TapeReclaimed {
                        barcode: barcode->0,
                        volume_uuid: j.text_in("volume_uuid"@)->0,
                    },
                )
            } else {
                None
            }
        } else if op == "catalog_part"@ {
            if barcode is Some && j.num_in("generation"@) is Some && j.num_in("part"@) is Some
                && j.list_in("files"@) is Some && recs_of(j.list_in("files"@)->0) is Some {
                Some(
                    CommandView::CatalogPart {
                        barcode: barcode->0,
                        generation: j.num_in("generation"@)->0,
                        part: j.num_in("part"@)->0 as u32,
                        files: recs_of(j.list_in("files"@)->0)->0,
                    },
                )
            } else {
                None
            }
        } else if op == "tape_committed"@ {
            if barcode is Some && j.text_in("volume_uuid"@) is Some && j.num_in(
                "generation"@,
            ) is Some && j.num_in("files"@) is Some && j.num_in("bytes_used"@) is Some && j.num_in(
                "parts"@,
            ) is Some && j.flag_in("full"@) is Some {
                Some(
                    CommandView::TapeCommitted {
                        barcode: barcode->0,
                        volume_uuid: j.text_in("volume_uuid"@)->0,
                        generation: j.num_in("generation"@)->0,
                        files: j.num_in("files"@)->0,
                        bytes_used: j.num_in("bytes_used"@)->0,
                        bytes_written: if j.num_in("bytes_written"@) is Some {
                            j.num_in("bytes_written"@)->0
                        } else {
                            0
                        },
                        parts: j.num_in("parts"@)->0 as u32,
                        full: j.flag_in("full"@)->0,
                    },
                )
            } else {
                None
            }
        } else if op == "takeover"@ {
            if node is Some && j.num_in("term"@) is Some {
                Some(CommandView::Takeover { node: node->0, term: j.num_in("term"@)->0 })
            } else {
                None
            }
        } else if op == "fenced"@ {
            if node is Some && j.num_in("round"@) is Some {
                Some(CommandView::Fenced { node: node->0, round: j.num_in("round"@)->0 })
            } else {
                None
            }
        } else if op == "abandoned"@ {
            if node is Some && j.num_in("round"@) is Some && j.text_in("reason"@) is Some {
                Some(
                    CommandView::Abandoned {
                        node: node->0,
                        round: j.num_in("round"@)->0,
                        reason: j.text_in("reason"@)->0,
                    },
                )
            } else {
                None
            }
        } else {
            None
        },
    }
}

/// The words of the documents differ from each other: by their length, or else by a character.
proof fn lemma_words()
    ensures
        "takeover"@.len() == 8,
        "fenced"@.len() == 6,
        "abandoned"@.len() == 9,
        "pool_create"@.len() == 11,
        "tape_assign"@.len() == 11,
        "tape_unassign"@.len() == 13,
        "tape_state"@.len() == 10,
        "tape_reclaim"@.len() == 12,
        "tape_reclaimed"@.len() == 14,
        "catalog_part"@.len() == 12,
        "tape_committed"@.len() == 14,
        "op"@.len() == 2,
        "node"@.len() == 4,
        "term"@.len() == 4,
        "round"@.len() == 5,
        "reason"@.len() == 6,
        "uuid"@.len() == 4,
        "name"@.len() == 4,
        "file_limit"@.len() == 10,
        "barcode"@.len() == 7,
        "pool"@.len() == 4,
        "state"@.len() == 5,
        "volume_uuid"@.len() == 11,
        "generation"@.len() == 10,
        "part"@.len() == 4,
        "files"@.len() == 5,
        "bytes_used"@.len() == 10,
        "bytes_written"@.len() == 13,
        "parts"@.len() == 5,
        "full"@.len() == 4,
        "source"@.len() == 6,
        "directory_index"@.len() == 15,
        "applied_index"@.len() == 13,
        "executor"@.len() == 8,
        "history"@.len() == 7,
        "pools"@.len() == 5,
        "tapes"@.len() == 5,
        "tape_summary"@.len() == 12,
        "pool_create"@[0] == 'p',
        "tape_assign"@[0] == 't',
        "tape_reclaim"@[0] == 't',
        "catalog_part"@[0] == 'c',
        "tape_reclaimed"@[5] == 'r',
        "tape_committed"@[5] == 'c',
        "node"@[0] == 'n',
        "term"@[0] == 't',
        "uuid"@[0] == 'u',
        "name"@[0] == 'n',
        "generation"@[0] == 'g',
        "bytes_used"@[0] == 'b',
        "files"@[0] == 'f',
        "parts"@[0] == 'p',
        "pools"@[0] == 'p',
        "tapes"@[0] == 't',
{
    reveal_strlit("takeover");
    reveal_strlit("fenced");
    reveal_strlit("abandoned");
    reveal_strlit("pool_create");
    reveal_strlit("tape_assign");
    reveal_strlit("tape_unassign");
    reveal_strlit("tape_state");
    reveal_strlit("tape_reclaim");
    reveal_strlit("tape_reclaimed");
    reveal_strlit("catalog_part");
    reveal_strlit("tape_committed");
    reveal_strlit("op");
    reveal_strlit("node");
    reveal_strlit("term");
    reveal_strlit("round");
    reveal_strlit("reason");
    reveal_strlit("uuid");
    reveal_strlit("name");
    reveal_strlit("file_limit");
    reveal_strlit("barcode");
    reveal_strlit("pool");
    reveal_strlit("state");
    reveal_strlit("volume_uuid");
    reveal_strlit("generation");
    reveal_strlit("part");
    reveal_strlit("files");
    reveal_strlit("bytes_used");
    reveal_strlit("bytes_written");
    reveal_strlit("parts");
    reveal_strlit("full");
    reveal_strlit("source");
    reveal_strlit("directory_index");
    reveal_strlit("applied_index");
    reveal_strlit("executor");
    reveal_strlit("history");
    reveal_strlit("pools");
    reveal_strlit("tapes");
    reveal_strlit("tape_summary");
}


proof fn lemma_rec_round_trip(f: FileRecView)
    ensures
        rec_of(rec_doc(f)) == Some(f),
{
}

/// The metadata of a record nests so deep at most that the record can be logged.
pub const METADATA_DEPTH: u64 = 12;

/// A record can be logged.
pub open spec fn loggable(f: FileRecView) -> bool {
    f.metadata.plain(METADATA_DEPTH as nat)
}

pub open spec fn all_loggable(files: Seq<FileRecView>) -> bool {
    forall|i: int| 0 <= i < files.len() ==> loggable(#[trigger] files[i])
}

/// A command can be logged: all its records can.
pub open spec fn encodable(c: CommandView) -> bool {
    match c {
        CommandView::CatalogPart { files, .. } => all_loggable(files),
        _ => true,
    }
}

/// The parts of a list hold records that can be logged, where the list does.
pub proof fn lemma_parts_loggable(files: Seq<FileRecView>)
    requires
        all_loggable(files),
    ensures
        forall|i: int|
            0 <= i < state::catalog_parts(files).len() ==> all_loggable(
                #[trigger] state::catalog_parts(files)[i],
            ),
    decreases files.len(),
{
    let parts = state::catalog_parts(files);
    if files.len() > 0 {
        let f = files.last();
        assert(loggable(f));
        assert(all_loggable(files.drop_last())) by {
            assert forall|i: int| 0 <= i < files.drop_last().len() implies loggable(
                #[trigger] files.drop_last()[i],
            ) by {
                assert(loggable(files[i]));
            }
        }
        lemma_parts_loggable(files.drop_last());
        state::law_parts_are_the_records(files.drop_last());
        let was = state::catalog_parts(files.drop_last());
        assert(all_loggable(was[was.len() - 1]));
        assert forall|i: int| 0 <= i < parts.len() implies all_loggable(#[trigger] parts[i]) by {
            if i < was.len() - 1 {
                assert(all_loggable(was[i]));
            }
        }
    }
}

proof fn lemma_xattrs_plain(v: Seq<XattrView>)
    ensures
        nodes::xattrs_doc(v).plain(2),
{
    let s = nodes::xattrs_doc(v)->Arr_0;
    assert forall|i: int| 0 <= i < s.len() implies (#[trigger] s[i]).plain(1) by {
        let m = nodes::xattr_doc(v[i])->Obj_0;
        assert forall|k: Seq<char>| m.contains_key(k) implies (#[trigger] m[k]).plain(0) by {}
    }
}

proof fn lemma_file_record_loggable(f: IndexFileView)
    ensures
        nodes::file_record(f) matches Some(r) ==> loggable(r),
{
    lemma_xattrs_plain(f.xattrs);
    match nodes::file_record(f) {
        Some(r) => {
            match r.metadata {
                JsonView::Obj(m) => {
                    assert forall|k: Seq<char>| m.contains_key(k) implies (#[trigger] m[k]).plain(
                        11,
                    ) by {
                        if m[k] == nodes::xattrs_doc(f.xattrs) {
                            lemma_plain_more(m[k], 2, 11);
                        }
                    }
                },
                _ => {},
            }
        },
        None => {},
    }
}

proof fn lemma_directory_record_loggable(d: IndexDirectoryView)
    ensures
        loggable(nodes::directory_record(d)),
{
    lemma_xattrs_plain(d.xattrs);
    let m = nodes::directory_doc(d)->Obj_0;
    let node = m["node"@];
    assert(node.plain(11)) by {
        let n = node->Obj_0;
        assert forall|k: Seq<char>| n.contains_key(k) implies (#[trigger] n[k]).plain(10) by {}
    }
    assert forall|k: Seq<char>| m.contains_key(k) implies (#[trigger] m[k]).plain(11) by {
        if m[k] == nodes::xattrs_doc(d.xattrs) {
            lemma_plain_more(m[k], 2, 11);
        }
    }
}

proof fn lemma_file_records_loggable(s: Seq<IndexFileView>)
    ensures
        nodes::file_records(s).dom().finite(),
        forall|k: Seq<char>| #[trigger]
            nodes::file_records(s).contains_key(k) ==> loggable(nodes::file_records(s)[k]),
    decreases s.len(),
{
    if s.len() > 0 {
        lemma_file_records_loggable(s.drop_last());
        lemma_file_record_loggable(s.last());
    }
}

proof fn lemma_all_records_loggable(m: Map<Seq<char>, FileRecView>, s: Seq<IndexDirectoryView>)
    requires
        m.dom().finite(),
        forall|k: Seq<char>| #[trigger] m.contains_key(k) ==> loggable(m[k]),
    ensures
        nodes::all_records(m, s).dom().finite(),
        forall|k: Seq<char>| #[trigger]
            nodes::all_records(m, s).contains_key(k) ==> loggable(nodes::all_records(m, s)[k]),
    decreases s.len(),
{
    if s.len() > 0 {
        lemma_all_records_loggable(m, s.drop_last());
        lemma_directory_record_loggable(s.last());
    }
}

/// Every record of a tape's index can be logged.
pub proof fn law_catalog_can_be_logged(
    files: Seq<IndexFileView>,
    directories: Seq<IndexDirectoryView>,
)
    ensures
        all_loggable(
            nodes::in_order(nodes::all_records(nodes::file_records(files), directories)),
        ),
{
    lemma_file_records_loggable(files);
    lemma_all_records_loggable(nodes::file_records(files), directories);
    let m = nodes::all_records(nodes::file_records(files), directories);
    strmap::lemma_sorted_keys_list(m);
    let ks = strmap::sorted_keys(m);
    let s = nodes::in_order(m);
    assert forall|i: int| 0 <= i < s.len() implies loggable(#[trigger] s[i]) by {
        assert(ks.contains(ks[i]));
        assert(m.contains_key(ks[i]));
    }
}

proof fn lemma_rec_plain(f: FileRecView)
    requires
        loggable(f),
    ensures
        rec_doc(f).plain(13),
{
    let s = rec_doc(f)->Arr_0;
    assert forall|i: int| 0 <= i < s.len() implies (#[trigger] s[i]).plain(12) by {
        if i == 6 {
            assert(s[i] == f.metadata);
        }
    }
}

proof fn lemma_command_plain(c: CommandView)
    requires
        encodable(c),
    ensures
        command_doc(c).plain(16),
{
    let m = command_doc(c)->Obj_0;
    assert forall|k: Seq<char>| m.contains_key(k) implies (#[trigger] m[k]).plain(15) by {
        match m[k] {
            JsonView::Arr(s) => {
                let files = c->CatalogPart_files;
                assert(s == files.map_values(|f: FileRecView| rec_doc(f)));
                assert forall|i: int| 0 <= i < s.len() implies (#[trigger] s[i]).plain(14) by {
                    assert(all_loggable(files));
                    assert(loggable(files[i]));
                    lemma_rec_plain(files[i]);
                    lemma_plain_more(s[i], 13, 14);
                }
            },
            _ => {},
        }
    }
}

/// A command reads back from its object.
pub proof fn law_command_round_trip(c: CommandView)
    ensures
        command_of(command_doc(c)) == Some(c),
{
    lemma_words();
    match c {
        CommandView::CatalogPart { barcode, generation, part, files } => {
            let s = files.map_values(|f: FileRecView| rec_doc(f));
            assert forall|i: int| 0 <= i < s.len() implies rec_of(#[trigger] s[i]) == Some(
                files[i],
            ) by {
                lemma_rec_round_trip(files[i]);
            }
            assert(recs_of(s) == Some(s.map_values(|j: JsonView| rec_of(j)->0)));
            assert(s.map_values(|j: JsonView| rec_of(j)->0) =~= files);
            assert(command_doc(c).list_in("files"@) == Some(s));
        },
        _ => {},
    }
}

fn rec_json(f: &FileRec) -> (r: Json)
    ensures
        r@ == rec_doc(f@),
{
    let metadata: &Json = &f.metadata;
    let items = Items::new().with(Json::str_of(f.path.as_str())).with(Json::Num(f.length)).with(
        Json::str_of(f.sha256.as_str()),
    ).with(Json::Num(f.version.0)).with(Json::Num(f.version.1)).with(Json::Bool(f.deleted)).with(
        metadata.dup(),
    );
    assert(items@ =~= rec_doc(f@)->Arr_0);
    items.done()
}

fn recs_json(files: &Vec<FileRec>) -> (r: Json)
    ensures
        r@ == JsonView::Arr(state::recs(files@).map_values(|f: FileRecView| rec_doc(f))),
{
    let ghost want = state::recs(files@).map_values(|f: FileRecView| rec_doc(f));
    let mut items = Items::new();
    let mut i: usize = 0;
    while i < files.len()
        invariant
            i <= files@.len(),
            want == state::recs(files@).map_values(|f: FileRecView| rec_doc(f)),
            items@ == want.take(i as int),
        decreases files@.len() - i,
    {
        items.push(rec_json(&files[i]));
        assert(want.take(i + 1) =~= want.take(i as int).push(want[i as int]));
        i += 1;
    }
    assert(want.take(i as int) =~= want);
    items.done()
}

fn rec_from(j: &Json) -> (r: Option<FileRec>)
    ensures
        r is Some <==> rec_of(j@) is Some,
        r is Some ==> r->0@ == rec_of(j@)->0,
{
    let path = j.text_at(0);
    let length = j.num_at(1);
    let sha256 = j.text_at(2);
    let round: u64 = match j.num_at(3) {
        Some(n) => n,
        None => 0,
    };
    let seq: u64 = match j.num_at(4) {
        Some(n) => n,
        None => 0,
    };
    let deleted = match j.flag_at(5) {
        Some(d) => d,
        None => false,
    };
    let metadata = match j.at(6) {
        Some(m) => m.dup(),
        None => Json::Null,
    };
    match (path, length, sha256) {
        (Some(path), Some(length), Some(sha256)) => Some(
            FileRec {
                path,
                length,
                sha256,
                version: (round, seq),
                deleted,
                metadata: Arc::new(metadata),
            },
        ),
        _ => None,
    }
}

fn recs_from(v: &Vec<Json>) -> (r: Option<Vec<FileRec>>)
    ensures
        r is Some <==> recs_of(json::items(v@)) is Some,
        r is Some ==> state::recs(r->0@) == recs_of(json::items(v@))->0,
{
    let ghost s = json::items(v@);
    proof {
        json::lemma_items(v@);
    }
    let mut out: Vec<FileRec> = Vec::new();
    let mut i: usize = 0;
    while i < v.len()
        invariant
            i <= v@.len() == s.len(),
            s == json::items(v@),
            forall|j: int| 0 <= j < s.len() ==> #[trigger] s[j] == v@[j]@,
            out@.len() == i,
            forall|j: int| 0 <= j < i ==> rec_of(#[trigger] s[j]) == Some(out@[j]@),
        decreases v@.len() - i,
    {
        assert(s[i as int] == v@[i as int]@);
        match rec_from(&v[i]) {
            Some(f) => {
                out.push(f);
            },
            None => {
                assert(rec_of(s[i as int]) is None);
                return None;
            },
        }
        i += 1;
    }
    assert(state::recs(out@) =~= s.map_values(|j: JsonView| rec_of(j)->0));
    Some(out)
}

impl Command {
    /// The command as an object.
    pub fn to_json(&self) -> (r: Json)
        ensures
            r@ == command_doc(self@),
    {
        let f = Fields::new();
        match self {
            Command::Takeover { node, term } => f.with("op", Json::str_of("takeover")).with(
                "node",
                Json::Num(*node),
            ).with("term", Json::Num(*term)).done(),
            Command::Fenced { node, round } => f.with("op", Json::str_of("fenced")).with(
                "node",
                Json::Num(*node),
            ).with("round", Json::Num(*round)).done(),
            Command::Abandoned { node, round, reason } => f.with(
                "op",
                Json::str_of("abandoned"),
            ).with("node", Json::Num(*node)).with("round", Json::Num(*round)).with(
                "reason",
                Json::str_of(reason.as_str()),
            ).done(),
            Command::PoolCreate { uuid, name, file_limit } => f.with(
                "op",
                Json::str_of("pool_create"),
            ).with("uuid", Json::str_of(uuid.as_str())).with(
                "name",
                Json::str_of(name.as_str()),
            ).with("file_limit", Json::Num(*file_limit)).done(),
            Command::TapeAssign { barcode, pool } => f.with(
                "op",
                Json::str_of("tape_assign"),
            ).with("barcode", Json::str_of(barcode.as_str())).with(
                "pool",
                Json::str_of(pool.as_str()),
            ).done(),
            Command::TapeUnassign { barcode } => f.with(
                "op",
                Json::str_of("tape_unassign"),
            ).with("barcode", Json::str_of(barcode.as_str())).done(),
            Command::TapeState { barcode, state } => f.with(
                "op",
                Json::str_of("tape_state"),
            ).with("barcode", Json::str_of(barcode.as_str())).with(
                "state",
                Json::str_of(state.as_str()),
            ).done(),
            Command::TapeReclaim { barcode } => f.with(
                "op",
                Json::str_of("tape_reclaim"),
            ).with("barcode", Json::str_of(barcode.as_str())).done(),
            Command::TapeReclaimed { barcode, volume_uuid } => f.with(
                "op",
                Json::str_of("tape_reclaimed"),
            ).with("barcode", Json::str_of(barcode.as_str())).with(
                "volume_uuid",
                Json::str_of(volume_uuid.as_str()),
            ).done(),
            Command::CatalogPart { barcode, generation, part, files } => f.with(
                "op",
                Json::str_of("catalog_part"),
            ).with("barcode", Json::str_of(barcode.as_str())).with(
                "generation",
                Json::Num(*generation),
            ).with("part", Json::Num(*part as u64)).with("files", recs_json(files)).done(),
            Command::TapeCommitted {
                barcode,
                volume_uuid,
                generation,
                files,
                bytes_used,
                bytes_written,
                parts,
                full,
            } => f.with("op", Json::str_of("tape_committed")).with(
                "barcode",
                Json::str_of(barcode.as_str()),
            ).with("volume_uuid", Json::str_of(volume_uuid.as_str())).with(
                "generation",
                Json::Num(*generation),
            ).with("files", Json::Num(*files)).with("bytes_used", Json::Num(*bytes_used)).with(
                "bytes_written",
                Json::Num(*bytes_written),
            ).with("parts", Json::Num(*parts as u64)).with("full", Json::Bool(*full)).done(),
        }
    }

    /// The command that an object describes.
    pub fn from_json(j: &Json) -> (r: Option<Command>)
        ensures
            r is Some <==> command_of(j@) is Some,
            r is Some ==> r->0@ == command_of(j@)->0,
    {
        let op = match j.text_in("op") {
            Some(op) => op,
            None => {
                return None;
            },
        };
        let op: &str = op.as_str();
        let barcode = j.text_in("barcode");
        let node = j.num_in("node");
        if text::same(op, "pool_create") {
            match (j.text_in("uuid"), j.text_in("name"), j.num_in("file_limit")) {
                (Some(uuid), Some(name), Some(file_limit)) => Some(
                    Command::PoolCreate { uuid, name, file_limit },
                ),
                _ => None,
            }
        } else if text::same(op, "tape_assign") {
            match (barcode, j.text_in("pool")) {
                (Some(barcode), Some(pool)) => Some(Command::TapeAssign { barcode, pool }),
                _ => None,
            }
        } else if text::same(op, "tape_unassign") {
            match barcode {
                Some(barcode) => Some(Command::TapeUnassign { barcode }),
                None => None,
            }
        } else if text::same(op, "tape_state") {
            match (barcode, j.text_in("state")) {
                (Some(barcode), Some(state)) => Some(Command::TapeState { barcode, state }),
                _ => None,
            }
        } else if text::same(op, "tape_reclaim") {
            match barcode {
                Some(barcode) => Some(Command::TapeReclaim { barcode }),
                None => None,
            }
        } else if text::same(op, "tape_reclaimed") {
            match (barcode, j.text_in("volume_uuid")) {
                (Some(barcode), Some(volume_uuid)) => Some(
                    Command::TapeReclaimed { barcode, volume_uuid },
                ),
                _ => None,
            }
        } else if text::same(op, "catalog_part") {
            let files = match j.list_in("files") {
                Some(v) => recs_from(v),
                None => None,
            };
            match (barcode, j.num_in("generation"), j.num_in("part"), files) {
                (Some(barcode), Some(generation), Some(part), Some(files)) => Some(
                    Command::CatalogPart {
                        barcode,
                        generation,
                        part: #[verifier::truncate]
                        (part as u32),
                        files,
                    },
                ),
                _ => None,
            }
        } else if text::same(op, "tape_committed") {
            let bytes_written: u64 = match j.num_in("bytes_written") {
                Some(n) => n,
                None => 0,
            };
            match (
                barcode,
                j.text_in("volume_uuid"),
                j.num_in("generation"),
                j.num_in("files"),
                j.num_in("bytes_used"),
                j.num_in("parts"),
                j.flag_in("full"),
            ) {
                (
                    Some(barcode),
                    Some(volume_uuid),
                    Some(generation),
                    Some(files),
                    Some(bytes_used),
                    Some(parts),
                    Some(full),
                ) => Some(
                    Command::TapeCommitted {
                        barcode,
                        volume_uuid,
                        generation,
                        files,
                        bytes_used,
                        bytes_written,
                        parts: #[verifier::truncate]
                        (parts as u32),
                        full,
                    },
                ),
                _ => None,
            }
        } else if text::same(op, "takeover") {
            match (node, j.num_in("term")) {
                (Some(node), Some(term)) => Some(Command::Takeover { node, term }),
                _ => None,
            }
        } else if text::same(op, "fenced") {
            match (node, j.num_in("round")) {
                (Some(node), Some(round)) => Some(Command::Fenced { node, round }),
                _ => None,
            }
        } else if text::same(op, "abandoned") {
            match (node, j.num_in("round"), j.text_in("reason")) {
                (Some(node), Some(round), Some(reason)) => Some(
                    Command::Abandoned { node, round, reason },
                ),
                _ => None,
            }
        } else {
            None
        }
    }

    /// Whether the command can be logged: the metadata of its records nests no deeper than is
    /// sure to be read back.
    pub fn can_encode(&self) -> (r: bool)
        ensures
            r == encodable(self@),
    {
        match self {
            Command::CatalogPart { files, .. } => {
                let ghost all = state::recs(files@);
                let mut i: usize = 0;
                while i < files.len()
                    invariant
                        i <= files@.len(),
                        all == state::recs(files@),
                        self@ is CatalogPart,
                        self@->CatalogPart_files == all,
                        forall|j: int| 0 <= j < i ==> loggable(#[trigger] all[j]),
                    decreases files@.len() - i,
                {
                    assert(all[i as int] == files@[i as int]@);
                    if !files[i].metadata.is_plain(METADATA_DEPTH) {
                        assert(!loggable(all[i as int]));
                        return false;
                    }
                    i += 1;
                }
                true
            },
            _ => true,
        }
    }

    /// The command as it stands in the log.
    pub fn encode(&self) -> (r: Vec<u8>)
        requires
            encodable(self@),
        ensures
            r@ == json::json_written(command_doc(self@)),
            decoded_command(r@) == Some(self@),
    {
        proof {
            law_command_round_trip(self@);
            lemma_command_plain(self@);
        }
        self.to_json().write()
    }

    /// Reads a command from the log.
    pub fn decode(data: &[u8]) -> (r: Option<Command>)
        ensures
            r is Some <==> decoded_command(data@) is Some,
            r is Some ==> r->0@ == decoded_command(data@)->0,
    {
        match Json::read(data) {
            Some(j) => Command::from_json(&j),
            None => None,
        }
    }
}

/// The command that a text in the log describes.
pub open spec fn decoded_command(data: Seq<u8>) -> Option<CommandView> {
    match json::json_read(data) {
        Some(j) => command_of(j),
        None => None,
    }
}

/// What nests little nests no deeper than more.
pub proof fn lemma_plain_more(j: JsonView, n: nat, m: nat)
    requires
        j.plain(n),
        n <= m,
    ensures
        j.plain(m),
    decreases n,
{
    match j {
        JsonView::Arr(s) => {
            assert forall|i: int| 0 <= i < s.len() implies (#[trigger] s[i]).plain(
                (m - 1) as nat,
            ) by {
                lemma_plain_more(s[i], (n - 1) as nat, (m - 1) as nat);
            }
        },
        JsonView::Obj(f) => {
            assert forall|k: Seq<char>| f.contains_key(k) implies (#[trigger] f[k]).plain(
                (m - 1) as nat,
            ) by {
                lemma_plain_more(f[k], (n - 1) as nat, (m - 1) as nat);
            }
        },
        _ => {},
    }
}

/// A snapshot: the whole control state, and where to fetch the file directory from.
///
/// The directory can be far too large for a log message, so the snapshot only points at it: the
/// node that made the snapshot, and the log index that its directory covers.
#[derive(Debug, Clone, PartialEq, Eq)]
pub struct ControlSnapshot {
    pub control: ControlState,
    /// The node that made the snapshot and holds the directory.
    pub source: u64,
    /// The log index that its directory covers; 0 where it has none.
    pub directory_index: u64,
}

#[verifier::ext_equal]
pub struct SnapshotView {
    pub control: ControlView,
    pub source: u64,
    pub directory_index: u64,
}

impl View for ControlSnapshot {
    type V = SnapshotView;

    open spec fn view(&self) -> SnapshotView {
        SnapshotView {
            control: self.control@,
            source: self.source,
            directory_index: self.directory_index,
        }
    }
}

/// A map as an array of rows, in key order.
pub open spec fn rows_doc<V>(m: Map<Seq<char>, V>, row: spec_fn(Seq<char>, V) -> JsonView) -> JsonView {
    JsonView::Arr(strmap::sorted_keys(m).map_values(|k: Seq<char>| row(k, m[k])))
}

/// The map in an array of rows, if each is one; a later row replaces an earlier one.
pub open spec fn rows_of<V>(
    s: Seq<JsonView>,
    row: spec_fn(JsonView) -> Option<(Seq<char>, V)>,
) -> Option<Map<Seq<char>, V>>
    decreases s.len(),
{
    if s.len() == 0 {
        Some(Map::empty())
    } else {
        match (rows_of(s.drop_last(), row), row(s.last())) {
            (Some(m), Some((k, v))) => Some(m.insert(k, v)),
            _ => None,
        }
    }
}

pub open spec fn pool_row(k: Seq<char>, p: PoolView) -> JsonView {
    JsonView::Arr(seq![JsonView::Str(k), JsonView::Str(p.name), JsonView::Num(p.file_limit)])
}

pub open spec fn pool_row_of(j: JsonView) -> Option<(Seq<char>, PoolView)> {
    if j.text_at(0) is Some && j.text_at(1) is Some && j.num_at(2) is Some {
        Some(
            (j.text_at(0)->0, PoolView { name: j.text_at(1)->0, file_limit: j.num_at(2)->0 }),
        )
    } else {
        None
    }
}

pub open spec fn text_row(k: Seq<char>, v: Seq<char>) -> JsonView {
    JsonView::Arr(seq![JsonView::Str(k), JsonView::Str(v)])
}

pub open spec fn text_row_of(j: JsonView) -> Option<(Seq<char>, Seq<char>)> {
    if j.text_at(0) is Some && j.text_at(1) is Some {
        Some((j.text_at(0)->0, j.text_at(1)->0))
    } else {
        None
    }
}

pub open spec fn summary_row(k: Seq<char>, s: SummaryView) -> JsonView {
    JsonView::Arr(
        seq![
            JsonView::Str(k),
            JsonView::Str(s.volume_uuid),
            JsonView::Num(s.generation),
            JsonView::Num(s.files),
            JsonView::Num(s.bytes_used),
            JsonView::Num(s.bytes_written),
        ],
    )
}

pub open spec fn summary_row_of(j: JsonView) -> Option<(Seq<char>, SummaryView)> {
    if j.text_at(0) is Some && j.text_at(1) is Some && j.num_at(2) is Some && j.num_at(3) is Some
        && j.num_at(4) is Some {
        Some(
            (
                j.text_at(0)->0,
                SummaryView {
                    volume_uuid: j.text_at(1)->0,
                    generation: j.num_at(2)->0,
                    files: j.num_at(3)->0,
                    bytes_used: j.num_at(4)->0,
                    bytes_written: if j.num_at(5) is Some {
                        j.num_at(5)->0
                    } else {
                        0
                    },
                },
            ),
        )
    } else {
        None
    }
}

pub open spec fn history_row(h: (u64, u64)) -> JsonView {
    JsonView::Arr(seq![JsonView::Num(h.0), JsonView::Num(h.1)])
}

/// The takeovers in an array of rows, if each is one.
pub open spec fn history_of(s: Seq<JsonView>) -> Option<Seq<(u64, u64)>> {
    if forall|i: int|
        0 <= i < s.len() ==> (#[trigger] s[i]).num_at(0) is Some && s[i].num_at(1) is Some {
        Some(s.map_values(|j: JsonView| (j.num_at(0)->0, j.num_at(1)->0)))
    } else {
        None
    }
}

pub open spec fn executor_doc(e: Option<Executor>) -> JsonView {
    match e {
        None => JsonView::Null,
        Some(e) => JsonView::Arr(
            seq![
                JsonView::Num(e.node),
                JsonView::Num(e.term),
                JsonView::Num(e.round),
                JsonView::Bool(e.fenced),
            ],
        ),
    }
}

/// The executor in a field: none where it is missing or null, and no reading where it is
/// something else.
pub open spec fn executor_of(j: Option<JsonView>) -> Option<Option<Executor>> {
    match j {
        None => Some(None),
        Some(JsonView::Null) => Some(None),
        Some(j) => if j.num_at(0) is Some && j.num_at(1) is Some && j.num_at(2) is Some && j.elem(
            3,
        ) is Some && j.elem(3)->0.flag() is Some {
            Some(
                Some(
                    Executor {
                        node: j.num_at(0)->0,
                        term: j.num_at(1)->0,
                        round: j.num_at(2)->0,
                        fenced: j.elem(3)->0.flag()->0,
                    },
                ),
            )
        } else {
            None
        },
    }
}

/// A snapshot as an object.
pub open spec fn snapshot_doc(s: SnapshotView) -> JsonView {
    let c = s.control;
    JsonView::Obj(
        Map::<Seq<char>, JsonView>::empty().insert("source"@, JsonView::Num(s.source)).insert(
            "directory_index"@,
            JsonView::Num(s.directory_index),
        ).insert("applied_index"@, JsonView::Num(c.applied_index)).insert(
            "executor"@,
            executor_doc(c.executor),
        ).insert(
            "history"@,
            JsonView::Arr(c.history.map_values(|h: (u64, u64)| history_row(h))),
        ).insert("pools"@, rows_doc(c.pools, |k: Seq<char>, p: PoolView| pool_row(k, p))).insert(
            "tapes"@,
            rows_doc(c.tapes, |k: Seq<char>, v: Seq<char>| text_row(k, v)),
        ).insert(
            "tape_state"@,
            rows_doc(c.tape_state, |k: Seq<char>, v: Seq<char>| text_row(k, v)),
        ).insert(
            "tape_summary"@,
            rows_doc(c.tape_summary, |k: Seq<char>, v: SummaryView| summary_row(k, v)),
        ),
    )
}

/// The list in the field `k` read by `f`.
pub open spec fn list_read<T>(
    j: JsonView,
    k: Seq<char>,
    f: spec_fn(Seq<JsonView>) -> Option<T>,
) -> Option<T> {
    match j.list_in(k) {
        Some(s) => f(s),
        None => None,
    }
}

/// The snapshot that an object describes.
pub open spec fn snapshot_of(j: JsonView) -> Option<SnapshotView> {
    let executor = executor_of(j.field("executor"@));
    let history = list_read(j, "history"@, |s: Seq<JsonView>| history_of(s));
    let pools = list_read(
        j,
        "pools"@,
        |s: Seq<JsonView>| rows_of(s, |j: JsonView| pool_row_of(j)),
    );
    let tapes = list_read(
        j,
        "tapes"@,
        |s: Seq<JsonView>| rows_of(s, |j: JsonView| text_row_of(j)),
    );
    let tape_state = list_read(
        j,
        "tape_state"@,
        |s: Seq<JsonView>| rows_of(s, |j: JsonView| text_row_of(j)),
    );
    let tape_summary = list_read(
        j,
        "tape_summary"@,
        |s: Seq<JsonView>| rows_of(s, |j: JsonView| summary_row_of(j)),
    );
    if j.num_in("applied_index"@) is Some && executor is Some && history is Some && pools is Some
        && tapes is Some && tape_state is Some && tape_summary is Some && j.num_in("source"@) is Some
        && j.num_in("directory_index"@) is Some {
        Some(
            SnapshotView {
                control: ControlView {
                    executor: executor->0,
                    applied_index: j.num_in("applied_index"@)->0,
                    history: history->0,
                    pools: pools->0,
                    tapes: tapes->0,
                    tape_state: tape_state->0,
                    tape_summary: tape_summary->0,
                },
                source: j.num_in("source"@)->0,
                directory_index: j.num_in("directory_index"@)->0,
            },
        )
    } else {
        None
    }
}

/// The keys of each map can be listed in order, which holds of every map that is kept that way.
pub open spec fn listable(c: ControlView) -> bool {
    &&& strmap::listing(strmap::sorted_keys(c.pools), c.pools.dom())
    &&& strmap::listing(strmap::sorted_keys(c.tapes), c.tapes.dom())
    &&& strmap::listing(strmap::sorted_keys(c.tape_state), c.tape_state.dom())
    &&& strmap::listing(strmap::sorted_keys(c.tape_summary), c.tape_summary.dom())
}

proof fn lemma_rows_take<V>(
    m: Map<Seq<char>, V>,
    row: spec_fn(Seq<char>, V) -> JsonView,
    back: spec_fn(JsonView) -> Option<(Seq<char>, V)>,
    keys: Seq<Seq<char>>,
)
    requires
        forall|k: Seq<char>, v: V| back(#[trigger] row(k, v)) == Some((k, v)),
        strmap::ascending(keys),
    ensures
        ({
            let s = keys.map_values(|k: Seq<char>| row(k, m[k]));
            let r = rows_of(s, back);
            &&& r is Some
            &&& forall|k: Seq<char>| #[trigger] r->0.contains_key(k) <==> keys.contains(k)
            &&& forall|k: Seq<char>| #[trigger] r->0.contains_key(k) ==> r->0[k] == m[k]
        }),
    decreases keys.len(),
{
    let s = keys.map_values(|k: Seq<char>| row(k, m[k]));
    if keys.len() > 0 {
        let k0 = keys.drop_last();
        assert(s.drop_last() =~= k0.map_values(|k: Seq<char>| row(k, m[k])));
        lemma_rows_take(m, row, back, k0);
        assert(s.last() == row(keys.last(), m[keys.last()]));
        assert forall|k: Seq<char>| keys.contains(k) <==> k0.contains(k) || k == keys.last() by {
            if keys.contains(k) && k != keys.last() {
                let i = choose|i: int| 0 <= i < keys.len() && keys[i] == k;
                assert(k0[i] == k);
            }
            if k0.contains(k) {
                let i = choose|i: int| 0 <= i < k0.len() && k0[i] == k;
                assert(keys[i] == k);
            }
            if k == keys.last() {
                assert(keys[keys.len() - 1] == k);
            }
        }
    }
}

proof fn lemma_rows_round_trip<V>(
    m: Map<Seq<char>, V>,
    row: spec_fn(Seq<char>, V) -> JsonView,
    back: spec_fn(JsonView) -> Option<(Seq<char>, V)>,
)
    requires
        forall|k: Seq<char>, v: V| back(#[trigger] row(k, v)) == Some((k, v)),
        strmap::listing(strmap::sorted_keys(m), m.dom()),
    ensures
        rows_of(rows_doc(m, row)->Arr_0, back) == Some(m),
{
    let keys = strmap::sorted_keys(m);
    lemma_rows_take(m, row, back, keys);
    let r = rows_of(rows_doc(m, row)->Arr_0, back)->0;
    assert(r =~= m);
}

/// A snapshot reads back as it was, nothing lost.
pub proof fn law_snapshot_round_trip(s: SnapshotView)
    requires
        listable(s.control),
    ensures
        snapshot_of(snapshot_doc(s)) == Some(s),
        snapshot_doc(s).plain(3),
{
    lemma_words();
    let c = s.control;
    let j = snapshot_doc(s);
    assert(j.plain(3)) by {
        reveal_with_fuel(JsonView::plain, 4);
    }
    lemma_rows_round_trip(
        c.pools,
        |k: Seq<char>, p: PoolView| pool_row(k, p),
        |j: JsonView| pool_row_of(j),
    );
    lemma_rows_round_trip(
        c.tapes,
        |k: Seq<char>, v: Seq<char>| text_row(k, v),
        |j: JsonView| text_row_of(j),
    );
    lemma_rows_round_trip(
        c.tape_state,
        |k: Seq<char>, v: Seq<char>| text_row(k, v),
        |j: JsonView| text_row_of(j),
    );
    lemma_rows_round_trip(
        c.tape_summary,
        |k: Seq<char>, v: SummaryView| summary_row(k, v),
        |j: JsonView| summary_row_of(j),
    );
    let h = c.history.map_values(|h: (u64, u64)| history_row(h));
    assert(history_of(h) == Some(c.history)) by {
        assert(h.map_values(|j: JsonView| (j.num_at(0)->0, j.num_at(1)->0)) =~= c.history);
    }
    assert(j.list_in("history"@) == Some(h));
    assert(j.field("executor"@) == Some(executor_doc(c.executor)));
    assert(executor_of(j.field("executor"@)) == Some(c.executor));
    assert(snapshot_of(j)->0.control.history =~= c.history);
}

proof fn lemma_rows_none<V>(
    s: Seq<JsonView>,
    i: int,
    f: spec_fn(JsonView) -> Option<(Seq<char>, V)>,
)
    requires
        0 <= i <= s.len(),
        rows_of(s.take(i), f) is None,
    ensures
        rows_of(s, f) is None,
    decreases s.len() - i,
{
    if i == s.len() {
        assert(s.take(i) =~= s);
    } else {
        assert(s.take(i + 1).drop_last() =~= s.take(i));
        lemma_rows_none(s, i + 1, f);
    }
}

fn pools_json(m: &StrMap<Pool>) -> (r: Json)
    ensures
        r@ == rows_doc(m@, |k: Seq<char>, v: PoolView| pool_row(k, v)),
        strmap::listing(strmap::sorted_keys(m@), m@.dom()),
{
    let n = m.len();
    let ghost ks = strmap::sorted_keys(m@);
    let ghost f = |k: Seq<char>, v: PoolView| pool_row(k, v);
    let ghost want = ks.map_values(|k: Seq<char>| f(k, m@[k]));
    let mut items = Items::new();
    let mut i: usize = 0;
    while i < n
        invariant
            i <= n == ks.len(),
            ks == strmap::sorted_keys(m@),
            f == (|k: Seq<char>, v: PoolView| pool_row(k, v)),
            want == ks.map_values(|k: Seq<char>| f(k, m@[k])),
            items@ == want.take(i as int),
        decreases n - i,
    {
        let k = m.key_at(i);
        let v = m.value_at(i);
        let row = Items::new().with(Json::str_of(k.as_str())).with(Json::str_of(v.name.as_str())).with(
            Json::Num(v.file_limit),
        );
        assert(row@ =~= pool_row(k@, v@)->Arr_0);
        items.push(row.done());
        assert(want.take(i + 1) =~= want.take(i as int).push(want[i as int]));
        i += 1;
    }
    assert(want.take(i as int) =~= want);
    items.done()
}

fn texts_json(m: &StrMap<String>) -> (r: Json)
    ensures
        r@ == rows_doc(m@, |k: Seq<char>, v: Seq<char>| text_row(k, v)),
        strmap::listing(strmap::sorted_keys(m@), m@.dom()),
{
    let n = m.len();
    let ghost ks = strmap::sorted_keys(m@);
    let ghost f = |k: Seq<char>, v: Seq<char>| text_row(k, v);
    let ghost want = ks.map_values(|k: Seq<char>| f(k, m@[k]));
    let mut items = Items::new();
    let mut i: usize = 0;
    while i < n
        invariant
            i <= n == ks.len(),
            ks == strmap::sorted_keys(m@),
            f == (|k: Seq<char>, v: Seq<char>| text_row(k, v)),
            want == ks.map_values(|k: Seq<char>| f(k, m@[k])),
            items@ == want.take(i as int),
        decreases n - i,
    {
        let k = m.key_at(i);
        let v = m.value_at(i);
        let row = Items::new().with(Json::str_of(k.as_str())).with(Json::str_of(v.as_str()));
        assert(row@ =~= text_row(k@, v@)->Arr_0);
        items.push(row.done());
        assert(want.take(i + 1) =~= want.take(i as int).push(want[i as int]));
        i += 1;
    }
    assert(want.take(i as int) =~= want);
    items.done()
}

fn summaries_json(m: &StrMap<TapeSummary>) -> (r: Json)
    ensures
        r@ == rows_doc(m@, |k: Seq<char>, v: SummaryView| summary_row(k, v)),
        strmap::listing(strmap::sorted_keys(m@), m@.dom()),
{
    let n = m.len();
    let ghost ks = strmap::sorted_keys(m@);
    let ghost f = |k: Seq<char>, v: SummaryView| summary_row(k, v);
    let ghost want = ks.map_values(|k: Seq<char>| f(k, m@[k]));
    let mut items = Items::new();
    let mut i: usize = 0;
    while i < n
        invariant
            i <= n == ks.len(),
            ks == strmap::sorted_keys(m@),
            f == (|k: Seq<char>, v: SummaryView| summary_row(k, v)),
            want == ks.map_values(|k: Seq<char>| f(k, m@[k])),
            items@ == want.take(i as int),
        decreases n - i,
    {
        let k = m.key_at(i);
        let v = m.value_at(i);
        let row = Items::new().with(Json::str_of(k.as_str())).with(
            Json::str_of(v.volume_uuid.as_str()),
        ).with(Json::Num(v.generation)).with(Json::Num(v.files)).with(Json::Num(v.bytes_used)).with(
            Json::Num(v.bytes_written),
        );
        assert(row@ =~= summary_row(k@, v@)->Arr_0);
        items.push(row.done());
        assert(want.take(i + 1) =~= want.take(i as int).push(want[i as int]));
        i += 1;
    }
    assert(want.take(i as int) =~= want);
    items.done()
}

fn pools_from(j: &Json, field: &str) -> (r: Option<StrMap<Pool>>)
    ensures
        ({
            let want = list_read(
                j@,
                field@,
                |s: Seq<JsonView>| rows_of(s, |j: JsonView| pool_row_of(j)),
            );
            &&& r is Some <==> want is Some
            &&& r is Some ==> r->0@ == want->0
        }),
{
    let v = match j.list_in(field) {
        Some(v) => v,
        None => {
            return None;
        },
    };
    let ghost s = json::items(v@);
    let ghost f = |j: JsonView| pool_row_of(j);
    proof {
        json::lemma_items(v@);
    }
    let mut out: StrMap<Pool> = StrMap::new();
    let mut i: usize = 0;
    assert(s.take(0) =~= Seq::<JsonView>::empty());
    while i < v.len()
        invariant
            i <= v@.len() == s.len(),
            j@.list_in(field@) == Some(s),
            f == (|j: JsonView| pool_row_of(j)),
            forall|j: int| 0 <= j < s.len() ==> #[trigger] s[j] == v@[j]@,
            rows_of(s.take(i as int), f) == Some(out@),
        decreases v@.len() - i,
    {
        proof {
            assert(s.take(i + 1).drop_last() =~= s.take(i as int));
            assert(s.take(i + 1).last() == v@[i as int]@);
        }
        let row = &v[i];
        match (row.text_at(0), row.text_at(1), row.num_at(2)) {
            (Some(k), Some(name), Some(file_limit)) => {
                out.insert(k, Pool { name, file_limit });
            },
            _ => {
                proof {
                    assert(f(row@) is None);
                    assert(rows_of(s.take(i + 1), f) is None);
                    lemma_rows_none(s, i + 1, f);
                }
                return None;
            },
        }
        i += 1;
    }
    assert(s.take(i as int) =~= s);
    Some(out)
}

fn texts_from(j: &Json, field: &str) -> (r: Option<StrMap<String>>)
    ensures
        ({
            let want = list_read(
                j@,
                field@,
                |s: Seq<JsonView>| rows_of(s, |j: JsonView| text_row_of(j)),
            );
            &&& r is Some <==> want is Some
            &&& r is Some ==> r->0@ == want->0
        }),
{
    let v = match j.list_in(field) {
        Some(v) => v,
        None => {
            return None;
        },
    };
    let ghost s = json::items(v@);
    let ghost f = |j: JsonView| text_row_of(j);
    proof {
        json::lemma_items(v@);
    }
    let mut out: StrMap<String> = StrMap::new();
    let mut i: usize = 0;
    assert(s.take(0) =~= Seq::<JsonView>::empty());
    while i < v.len()
        invariant
            i <= v@.len() == s.len(),
            j@.list_in(field@) == Some(s),
            f == (|j: JsonView| text_row_of(j)),
            forall|j: int| 0 <= j < s.len() ==> #[trigger] s[j] == v@[j]@,
            rows_of(s.take(i as int), f) == Some(out@),
        decreases v@.len() - i,
    {
        proof {
            assert(s.take(i + 1).drop_last() =~= s.take(i as int));
            assert(s.take(i + 1).last() == v@[i as int]@);
        }
        let row = &v[i];
        match (row.text_at(0), row.text_at(1)) {
            (Some(k), Some(v)) => {
                out.insert(k, v);
            },
            _ => {
                proof {
                    assert(f(row@) is None);
                    assert(rows_of(s.take(i + 1), f) is None);
                    lemma_rows_none(s, i + 1, f);
                }
                return None;
            },
        }
        i += 1;
    }
    assert(s.take(i as int) =~= s);
    Some(out)
}

fn summaries_from(j: &Json, field: &str) -> (r: Option<StrMap<TapeSummary>>)
    ensures
        ({
            let want = list_read(
                j@,
                field@,
                |s: Seq<JsonView>| rows_of(s, |j: JsonView| summary_row_of(j)),
            );
            &&& r is Some <==> want is Some
            &&& r is Some ==> r->0@ == want->0
        }),
{
    let v = match j.list_in(field) {
        Some(v) => v,
        None => {
            return None;
        },
    };
    let ghost s = json::items(v@);
    let ghost f = |j: JsonView| summary_row_of(j);
    proof {
        json::lemma_items(v@);
    }
    let mut out: StrMap<TapeSummary> = StrMap::new();
    let mut i: usize = 0;
    assert(s.take(0) =~= Seq::<JsonView>::empty());
    while i < v.len()
        invariant
            i <= v@.len() == s.len(),
            j@.list_in(field@) == Some(s),
            f == (|j: JsonView| summary_row_of(j)),
            forall|j: int| 0 <= j < s.len() ==> #[trigger] s[j] == v@[j]@,
            rows_of(s.take(i as int), f) == Some(out@),
        decreases v@.len() - i,
    {
        proof {
            assert(s.take(i + 1).drop_last() =~= s.take(i as int));
            assert(s.take(i + 1).last() == v@[i as int]@);
        }
        let row = &v[i];
        match (
            row.text_at(0),
            row.text_at(1),
            row.num_at(2),
            row.num_at(3),
            row.num_at(4),
        ) {
            (Some(k), Some(volume_uuid), Some(generation), Some(files), Some(bytes_used)) => {
                let bytes_written: u64 = match row.num_at(5) {
                    Some(n) => n,
                    None => 0,
                };
                out.insert(
                    k,
                    TapeSummary { volume_uuid, generation, files, bytes_used, bytes_written },
                );
            },
            _ => {
                proof {
                    assert(f(row@) is None);
                    assert(rows_of(s.take(i + 1), f) is None);
                    lemma_rows_none(s, i + 1, f);
                }
                return None;
            },
        }
        i += 1;
    }
    assert(s.take(i as int) =~= s);
    Some(out)
}

fn history_json(h: &Vec<(u64, u64)>) -> (r: Json)
    ensures
        r@ == JsonView::Arr(h@.map_values(|h: (u64, u64)| history_row(h))),
{
    let ghost want = h@.map_values(|h: (u64, u64)| history_row(h));
    let mut items = Items::new();
    let mut i: usize = 0;
    while i < h.len()
        invariant
            i <= h@.len(),
            want == h@.map_values(|h: (u64, u64)| history_row(h)),
            items@ == want.take(i as int),
        decreases h@.len() - i,
    {
        let row = Items::new().with(Json::Num(h[i].0)).with(Json::Num(h[i].1));
        assert(row@ =~= history_row(h@[i as int])->Arr_0);
        items.push(row.done());
        assert(want.take(i + 1) =~= want.take(i as int).push(want[i as int]));
        i += 1;
    }
    assert(want.take(i as int) =~= want);
    items.done()
}

fn history_from(j: &Json) -> (r: Option<Vec<(u64, u64)>>)
    ensures
        ({
            let want = list_read(j@, "history"@, |s: Seq<JsonView>| history_of(s));
            &&& r is Some <==> want is Some
            &&& r is Some ==> r->0@ == want->0
        }),
{
    let v = match j.list_in("history") {
        Some(v) => v,
        None => {
            return None;
        },
    };
    let ghost s = json::items(v@);
    proof {
        json::lemma_items(v@);
    }
    let mut out: Vec<(u64, u64)> = Vec::new();
    let mut i: usize = 0;
    while i < v.len()
        invariant
            i <= v@.len() == s.len(),
            j@.list_in("history"@) == Some(s),
            forall|j: int| 0 <= j < s.len() ==> #[trigger] s[j] == v@[j]@,
            out@.len() == i,
            forall|j: int|
                0 <= j < i ==> (#[trigger] s[j]).num_at(0) == Some(out@[j].0) && s[j].num_at(1)
                    == Some(out@[j].1),
        decreases v@.len() - i,
    {
        assert(s[i as int] == v@[i as int]@);
        match (v[i].num_at(0), v[i].num_at(1)) {
            (Some(a), Some(b)) => {
                out.push((a, b));
            },
            _ => {
                return None;
            },
        }
        i += 1;
    }
    assert(out@ =~= s.map_values(|j: JsonView| (j.num_at(0)->0, j.num_at(1)->0)));
    Some(out)
}

fn executor_json(e: &Option<Executor>) -> (r: Json)
    ensures
        r@ == executor_doc(*e),
{
    match e {
        None => Json::Null,
        Some(e) => {
            let row = Items::new().with(Json::Num(e.node)).with(Json::Num(e.term)).with(
                Json::Num(e.round),
            ).with(Json::Bool(e.fenced));
            assert(row@ =~= executor_doc(Some(*e))->Arr_0);
            row.done()
        },
    }
}

fn executor_from(j: Option<&Json>) -> (r: Option<Option<Executor>>)
    ensures
        r == executor_of(
            match j {
                Some(j) => Some(j@),
                None => None,
            },
        ),
{
    let j = match j {
        Some(j) => j,
        None => {
            return Some(None);
        },
    };
    if j.is_null() {
        return Some(None);
    }
    let fenced: Option<bool> = match j.at(3) {
        Some(f) => f.as_bool(),
        None => None,
    };
    match (j.num_at(0), j.num_at(1), j.num_at(2), fenced) {
        (Some(node), Some(term), Some(round), Some(fenced)) => Some(
            Some(Executor { node, term, round, fenced }),
        ),
        _ => None,
    }
}

/// The snapshot that a text describes.
pub open spec fn decoded_snapshot(data: Seq<u8>) -> Option<SnapshotView> {
    match json::json_read(data) {
        Some(j) => snapshot_of(j),
        None => None,
    }
}

impl ControlSnapshot {
    /// The snapshot as text, which reads back as the snapshot.
    pub fn encode(&self) -> (r: Vec<u8>)
        ensures
            r@ == json::json_written(snapshot_doc(self@)),
            decoded_snapshot(r@) == Some(self@),
    {
        let c = &self.control;
        let j = Fields::new().with("source", Json::Num(self.source)).with(
            "directory_index",
            Json::Num(self.directory_index),
        ).with("applied_index", Json::Num(c.applied_index)).with(
            "executor",
            executor_json(&c.executor),
        ).with("history", history_json(&c.history)).with("pools", pools_json(&c.pools)).with(
            "tapes",
            texts_json(&c.tapes),
        ).with("tape_state", texts_json(&c.tape_state)).with(
            "tape_summary",
            summaries_json(&c.tape_summary),
        ).done();
        proof {
            law_snapshot_round_trip(self@);
            lemma_plain_more(snapshot_doc(self@), 3, 16);
        }
        j.write()
    }

    /// The snapshot that an object describes.
    pub fn from_json(j: &Json) -> (r: Option<ControlSnapshot>)
        ensures
            r is Some <==> snapshot_of(j@) is Some,
            r is Some ==> r->0@ == snapshot_of(j@)->0,
    {
        match (
            j.num_in("applied_index"),
            executor_from(j.get("executor")),
            history_from(j),
            pools_from(j, "pools"),
            texts_from(j, "tapes"),
            texts_from(j, "tape_state"),
            summaries_from(j, "tape_summary"),
            j.num_in("source"),
            j.num_in("directory_index"),
        ) {
            (
                Some(applied_index),
                Some(executor),
                Some(history),
                Some(pools),
                Some(tapes),
                Some(tape_state),
                Some(tape_summary),
                Some(source),
                Some(directory_index),
            ) => Some(
                ControlSnapshot {
                    control: ControlState {
                        executor,
                        applied_index,
                        history,
                        pools,
                        tapes,
                        tape_state,
                        tape_summary,
                    },
                    source,
                    directory_index,
                },
            ),
            _ => None,
        }
    }

    /// Reads a snapshot.
    pub fn decode(data: &[u8]) -> (r: Option<ControlSnapshot>)
        ensures
            r is Some <==> decoded_snapshot(data@) is Some,
            r is Some ==> r->0@ == decoded_snapshot(data@)->0,
    {
        match Json::read(data) {
            Some(j) => ControlSnapshot::from_json(&j),
            None => None,
        }
    }
}

} // verus!

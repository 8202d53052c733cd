//! Which steps bring a catalog to the current schema, and where the catalog lies.
use vstd::prelude::*;

use crate::error::{TapeError, TapeErrorView};
use crate::text;

verus! {

/// The schema that this library writes.
pub const SCHEMA_VERSION: u32 = 2;

/// The steps that a catalog at schema `current` still needs.
#[derive(Debug, Clone, Copy, PartialEq, Eq, Structural)]
pub struct Migration {
    pub create_tables: bool,
    pub add_capacity: bool,
}

/// Decides how to bring a catalog to the current schema. `None`: it is there already.
pub fn migration(current: u32) -> (r: Result<Option<Migration>, TapeError>)
    ensures
        if current > SCHEMA_VERSION {
            r is Err && r->Err_0@ == TapeErrorView::Catalog(
                "catalog schema "@ + text::decimal(current as nat) + " 比本程序支持的 "@
                    + text::decimal(SCHEMA_VERSION as nat) + " 新"@,
            )
        } else if current == SCHEMA_VERSION {
            r == Ok::<Option<Migration>, TapeError>(None)
        } else {
            r == Ok::<Option<Migration>, TapeError>(
                Some(Migration { create_tables: current < 1, add_capacity: true }),
            )
        },
{
    if current == SCHEMA_VERSION {
        return Ok(None);
    }
    if current > SCHEMA_VERSION {
        let mut t = text::cat4(
            "catalog schema ",
            text::decimal_text(current as u64).as_str(),
            " 比本程序支持的 ",
            text::decimal_text(SCHEMA_VERSION as u64).as_str(),
        );
        t.push_str(" 新");
        return Err(TapeError::Catalog(t));
    }
    Ok(Some(Migration { create_tables: current < 1, add_capacity: true }))
}

/// Where to look for the catalog.
#[derive(Debug)]
pub enum CatalogPlace {
    /// At this path.
    At(String),
    /// At `tape-rs/catalog.db` under this data directory.
    UnderData(String),
    /// At `.local/share/tape-rs/catalog.db` under this home directory.
    UnderHome(String),
}

#[verifier::ext_equal]
pub enum PlaceView {
    At(Seq<char>),
    UnderData(Seq<char>),
    UnderHome(Seq<char>),
}

impl View for CatalogPlace {
    type V = PlaceView;

    open spec fn view(&self) -> PlaceView {
        match *self {
            CatalogPlace::At(s) => PlaceView::At(s@),
            CatalogPlace::UnderData(s) => PlaceView::UnderData(s@),
            CatalogPlace::UnderHome(s) => PlaceView::UnderHome(s@),
        }
    }
}

/// Decides where the catalog lies: an explicit path, else the catalog variable, else the data
/// directory, else the home directory. Empty variables count as unset, but for the home
/// directory.
pub fn resolve_path(
    override_path: Option<&str>,
    catalog_var: Option<&str>,
    data_home: Option<&str>,
    home: Option<&str>,
) -> (r: Result<CatalogPlace, TapeError>)
    ensures
        match override_path {
            Some(p) => r is Ok && r->Ok_0@ == PlaceView::At(p@),
            None => if catalog_var is Some && catalog_var->0@.len() > 0 {
                r is Ok && r->Ok_0@ == PlaceView::At(catalog_var->0@)
            } else if data_home is Some && data_home->0@.len() > 0 {
                r is Ok && r->Ok_0@ == PlaceView::UnderData(data_home->0@)
            } else if home is Some {
                r is Ok && r->Ok_0@ == PlaceView::UnderHome(home->0@)
            } else {
                r is Err && r->Err_0@ == TapeErrorView::Catalog(
                    "既未指定 --catalog / $TAPE_RS_CATALOG，也无 $HOME 可推导默认路径"@,
                )
            },
        },
{
    match override_path {
        Some(p) => {
            return Ok(CatalogPlace::At(p.to_owned()));
        },
        None => {},
    }
    match catalog_var {
        Some(p) => {
            if !p.is_empty() {
                return Ok(CatalogPlace::At(p.to_owned()));
            }
        },
        None => {},
    }
    match data_home {
        Some(p) => {
            if !p.is_empty() {
                return Ok(CatalogPlace::UnderData(p.to_owned()));
            }
        },
        None => {},
    }
    match home {
        Some(p) => Ok(CatalogPlace::UnderHome(p.to_owned())),
        None => Err(
            TapeError::Catalog(
                "既未指定 --catalog / $TAPE_RS_CATALOG，也无 $HOME 可推导默认路径".to_owned(),
            ),
        ),
    }
}

} // verus!

use vstd::prelude::*;
use vstd::string::StringExecFns;

verus! {

/// A statement for the timeline store, with the image it binds, if any.
#[derive(Debug, Clone)]
pub struct DbStatement {
    pub sql: String,
    pub image: Option<Vec<u8>>,
}

/// How much of the timeline a history request wants: all snapshots, or
/// the first `limit` by capture time.
#[derive(Debug, Clone, Copy, PartialEq, Eq)]
pub struct GetHistoryOptions {
    pub limit: Option<u32>,
}

/// The statement that creates the timeline table when it is missing.
pub open spec fn schema_sql() -> Seq<char> {
    "CREATE TABLE IF NOT EXISTS timeline (
            created_at TIMESTAMPTZ NOT NULL DEFAULT NOW() PRIMARY KEY,
            image_png BYTEA NOT NULL
        )"@
}

/// The statement that stores one snapshot, stamped with the time of insertion.
pub open spec fn insert_sql() -> Seq<char> {
    "INSERT INTO timeline (image_png) VALUES ($1)"@
}

/// The query for every snapshot, oldest first.
pub open spec fn select_sql() -> Seq<char> {
    "SELECT created_at, image_png FROM timeline ORDER BY created_at"@
}

/// The decimal digits of `n`, without sign or leading zeros.
pub open spec fn decimal_of(n: nat) -> Seq<char>
    decreases n,
{
    if n < 10 {
        seq![(n + 48) as char]
    } else {
        decimal_of(n / 10).push(((n % 10) + 48) as char)
    }
}

/// The history query: all snapshots in ascending capture order, cut after
/// the first `limit` when a limit is given.
pub open spec fn history_sql(limit: Option<u32>) -> Seq<char> {
    match limit {
        None => select_sql(),
        Some(n) => select_sql() + " LIMIT "@ + decimal_of(n as nat),
    }
}

fn digit_str(d: u32) -> (r: &'static str)
    requires
        d < 10,
    ensures
        r@ == seq![(d + 48) as char],
{
    proof {
        reveal_strlit("0");
        reveal_strlit("1");
        reveal_strlit("2");
        reveal_strlit("3");
        reveal_strlit("4");
        reveal_strlit("5");
        reveal_strlit("6");
        reveal_strlit("7");
        reveal_strlit("8");
        reveal_strlit("9");
    }
    let r = if d == 0 {
        "0"
    } else if d == 1 {
        "1"
    } else if d == 2 {
        "2"
    } else if d == 3 {
        "3"
    } else if d == 4 {
        "4"
    } else if d == 5 {
        "5"
    } else if d == 6 {
        "6"
    } else if d == 7 {
        "7"
    } else if d == 8 {
        "8"
    } else {
        "9"
    };
    assert(r@ =~= seq![(d + 48) as char]);
    r
}

/// The decimal digits of `n`.
fn decimal_string(n: u32) -> (r: String)
    ensures
        r@ == decimal_of(n as nat),
    decreases n,
{
    if n < 10 {
        digit_str(n).to_owned()
    } else {
        let head = decimal_string(n / 10);
        let r = head.concat(digit_str(n % 10));
        assert(r@ =~= decimal_of(n as nat));
        r
    }
}

/// The statement that creates the timeline table if it does not exist.
pub fn init_db() -> (r: DbStatement)
    ensures
        r.sql@ == schema_sql(),
        r.image.is_none(),
{
    let sql = "CREATE TABLE IF NOT EXISTS timeline (
            created_at TIMESTAMPTZ NOT NULL DEFAULT NOW() PRIMARY KEY,
            image_png BYTEA NOT NULL
        )".to_owned();
    DbStatement { sql, image: None }
}

/// The statement that stores a PNG snapshot in the timeline.
pub fn save_logo(logo_png: &[u8]) -> (r: DbStatement)
    ensures
        r.sql@ == insert_sql(),
        r.image.is_some(),
        r.image.unwrap()@ == logo_png@,
{
    let mut image: Vec<u8> = Vec::with_capacity(logo_png.len());
    let mut i: usize = 0;
    while i < logo_png.len()
        invariant
            0 <= i <= logo_png@.len(),
            image@ == logo_png@.subrange(0, i as int),
        decreases logo_png@.len() - i,
    {
        image.push(logo_png[i]);
        i = i + 1;
        assert(image@ =~= logo_png@.subrange(0, i as int));
    }
    assert(image@ =~= logo_png@);
    let sql = "INSERT INTO timeline (image_png) VALUES ($1)".to_owned();
    DbStatement { sql, image: Some(image) }
}

/// The query that reads the timeline for a history request.
pub fn history_query(options: GetHistoryOptions) -> (r: String)
    ensures
        r@ == history_sql(options.limit),
{
    let select = "SELECT created_at, image_png FROM timeline ORDER BY created_at".to_owned();
    match options.limit {
        None => select,
        Some(n) => {
            let with_limit = select.concat(" LIMIT ");
            let digits = decimal_string(n);
            with_limit.concat(digits.as_str())
        },
    }
}

} // verus!

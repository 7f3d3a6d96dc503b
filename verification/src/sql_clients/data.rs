//! The query that lists every reservation, and its rows.

use vstd::prelude::*;
use vstd::string::*;

verus! {

/// One row of the answer to [`dump_query`]: an account and the starts of
/// its reservations as one text, if it has any.
#[derive(Debug)]
pub struct DumpRow {
    pub email: String,
    pub starts: Option<String>,
}

/// The text of the query that lists the reservations of each account, in
/// the order of their starts, as one text for the account.
pub open spec fn dump_query_text() -> Seq<char> {
    "SELECT u.email, CONCAT('[', GROUP_CONCAT(DATE_FORMAT(us.start, '%Y/%m/%d %H:%i') order by us.start), ']') as starts FROM t_user u INNER JOIN t_user_slot us ON u.id = us.user_id GROUP BY u.id ORDER BY u.id"@
}

/// The text of the query that removes every reservation.
pub open spec fn clear_query_text() -> Seq<char> {
    "DELETE FROM t_user_slot"@
}

/// The rows that list something, as pairs of account and text, in the
/// order of the rows.
pub open spec fn listed(rows: Seq<DumpRow>) -> Seq<(String, String)>
    decreases rows.len(),
{
    if rows.len() == 0 {
        Seq::empty()
    } else {
        let before = listed(rows.drop_last());
        match rows.last().starts {
            Some(starts) => before.push((rows.last().email, starts)),
            None => before,
        }
    }
}

/// The query that lists the reservations of each account.
pub fn dump_query() -> (query: String)
    ensures
        query@ == dump_query_text(),
{
    String::from_str(
        "SELECT u.email, CONCAT('[', GROUP_CONCAT(DATE_FORMAT(us.start, '%Y/%m/%d %H:%i') order by us.start), ']') as starts FROM t_user u INNER JOIN t_user_slot us ON u.id = us.user_id GROUP BY u.id ORDER BY u.id",
    )
}

/// The query that removes every reservation.
pub fn clear_query() -> (query: String)
    ensures
        query@ == clear_query_text(),
{
    String::from_str("DELETE FROM t_user_slot")
}

/// The entries of the listing: for each row that lists something, the
/// account and the text, in the order of the rows.
pub fn dump_entries(rows: Vec<DumpRow>) -> (entries: Vec<(String, String)>)
    ensures
        entries@ == listed(rows@),
{
    let mut entries: Vec<(String, String)> = Vec::new();
    let mut i: usize = 0;
    while i < rows.len()
        invariant
            i <= rows.len(),
            entries@ == listed(rows@.take(i as int)),
        decreases rows.len() - i,
    {
        assert(rows@.take(i + 1).drop_last() == rows@.take(i as int));
        match &rows[i].starts {
            Some(starts) => {
                entries.push((rows[i].email.clone(), starts.clone()));
            },
            None => {},
        }
        i = i + 1;
    }
    assert(rows@.take(i as int) == rows@);
    entries
}

} // verus!

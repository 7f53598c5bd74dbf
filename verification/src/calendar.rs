use vstd::prelude::*;
use crate::text::{
    chars_of, string_of, push_str, push_int, trim, trim_chars, int_text, str_eq, parse_integer, parse_int_spec,
    parse_u32, parse_u32_spec, ascii_upper_seq,
};
use crate::listing::{SqlValue, SqlValueView, binds_view, sql_value_view};
use crate::migration::to_ascii_upper;
use crate::payloads::{country_code, valid_country_code};
use crate::models::Viewer;
use crate::error::{AppError, is_error};

verus! {

/// Leap years of the Gregorian calendar.
pub open spec fn is_leap(y: int) -> bool {
    y % 4 == 0 && (y % 100 != 0 || y % 400 == 0)
}

pub open spec fn days_in_month(y: int, m: int) -> int {
    if m == 2 {
        if is_leap(y) {
            29
        } else {
            28
        }
    } else if m == 4 || m == 6 || m == 9 || m == 11 {
        30
    } else {
        31
    }
}

/// Days of year `y` before the first of month `m`.
pub open spec fn days_before_month(y: int, m: int) -> int
    decreases m,
{
    if m <= 1 {
        0
    } else {
        days_before_month(y, m - 1) + days_in_month(y, m - 1)
    }
}

/// Days from 1970-01-01 to the first of January of `y` (from 1970 on).
pub open spec fn days_to_year(y: int) -> int
    decreases y - 1970,
{
    if y <= 1970 {
        0
    } else {
        days_to_year(y - 1) + if is_leap(y - 1) {
            366int
        } else {
            365int
        }
    }
}

/// The Unix time of midnight UTC on the first of month `m` of year `y`.
pub open spec fn month_start(y: int, m: int) -> int {
    (days_to_year(y) + days_before_month(y, m)) * 86400
}

fn leap(y: i64) -> (b: bool)
    ensures
        b == is_leap(y as int),
{
    y % 4 == 0 && (y % 100 != 0 || y % 400 == 0)
}

fn month_start_exec(year: i64, month: i64) -> (r: i64)
    requires
        1970 <= year <= 2101,
        1 <= month <= 12,
    ensures
        r == month_start(year as int, month as int),
{
    let mut days: i64 = 0;
    let mut y: i64 = 1970;
    while y < year
        invariant
            1970 <= y <= year <= 2101,
            days == days_to_year(y as int),
            0 <= days <= (y - 1970) * 366,
        decreases year - y,
    {
        days = days + if leap(y) {
            366
        } else {
            365
        };
        y = y + 1;
    }
    let mut m: i64 = 1;
    let mut before: i64 = 0;
    while m < month
        invariant
            1 <= m <= month <= 12,
            before == days_before_month(year as int, m as int),
            0 <= before <= (m - 1) * 31,
        decreases month - m,
    {
        let len: i64 = if m == 2 {
            if leap(year) {
                29
            } else {
                28
            }
        } else if m == 4 || m == 6 || m == 9 || m == 11 {
            30
        } else {
            31
        };
        before = before + len;
        m = m + 1;
    }
    (days + before) * 86400
}

/// The first and the end (exclusive) of a calendar month, as Unix times; months
/// outside 1970 to 2100 are refused with 400.
pub fn calendar_month_bounds(year: i32, month: u32) -> (r: Result<(i64, i64), AppError>)
    ensures
        r is Ok <==> (1970 <= year <= 2100 && 1 <= month <= 12),
        r matches Ok((start, end)) ==> start == month_start(year as int, month as int) && end == if month == 12 {
            month_start(year + 1, 1)
        } else {
            month_start(year as int, month + 1)
        },
        r matches Err(e) ==> is_error(e, 400, "Invalid calendar month"@),
{
    if !(1970 <= year && year <= 2100) || !(1 <= month && month <= 12) {
        return Err(AppError::new(400, "Invalid calendar month"));
    }
    let start = month_start_exec(year as i64, month as i64);
    let end = if month == 12 {
        month_start_exec(year as i64 + 1, 1)
    } else {
        month_start_exec(year as i64, month as i64 + 1)
    };
    Ok((start, end))
}

/// `str::parse::<i32>`.
pub open spec fn parse_i32_spec(s: Seq<char>) -> Option<int> {
    parse_int_spec(s, true, i32::MIN as int, i32::MAX as int)
}

pub fn parse_i32(s: &str) -> (r: Option<i32>)
    ensures
        crate::json::opt_i64(match r {
            Some(x) => Some(x as i64),
            None => None,
        }) == parse_i32_spec(s@),
{
    match parse_integer(&chars_of(s), true, i32::MIN as i128, i32::MAX as i128) {
        Some(x) => Some(x as i32),
        None => None,
    }
}

/// The timeline query: the days of one month when a year and a month are given,
/// else the latest 120 days; non-admins see only memos they may read.
#[derive(Debug)]
pub struct TimelineQuery {
    pub sql: String,
    pub binds: Vec<SqlValue>,
}

pub open spec fn timeline_month(year: Option<Seq<char>>, month: Option<Seq<char>>) -> Option<(int, int)> {
    match (year, month) {
        (Some(y), Some(m)) => match (parse_i32_spec(y), parse_u32_spec(m)) {
            (Some(y), Some(m)) => Some((y, m)),
            _ => None,
        },
        _ => None,
    }
}

pub open spec fn timeline_sql(month_given: bool, admin: bool) -> Seq<char> {
    if month_given {
        if admin {
            "SELECT date(created_ts, 'unixepoch') AS day, COUNT(*) AS count FROM memo WHERE row_status = 'NORMAL' AND created_ts >= ? AND created_ts < ? GROUP BY day ORDER BY day ASC"@
        } else {
            "SELECT date(created_ts, 'unixepoch') AS day, COUNT(*) AS count FROM memo WHERE row_status = 'NORMAL' AND created_ts >= ? AND created_ts < ? AND (visibility != 'PRIVATE' OR creator_id = ?) GROUP BY day ORDER BY day ASC"@
        }
    } else {
        if admin {
            "SELECT date(created_ts, 'unixepoch') AS day, COUNT(*) AS count FROM memo WHERE row_status = 'NORMAL' GROUP BY day ORDER BY day DESC LIMIT 120"@
        } else {
            "SELECT date(created_ts, 'unixepoch') AS day, COUNT(*) AS count FROM memo WHERE row_status = 'NORMAL' AND (visibility != 'PRIVATE' OR creator_id = ?) GROUP BY day ORDER BY day DESC LIMIT 120"@
        }
    }
}

pub fn timeline_query(year: Option<String>, month: Option<String>, viewer: &Viewer) -> (r: Result<TimelineQuery, AppError>)
    ensures
        match timeline_month(crate::json::opt_string(year), crate::json::opt_string(month)) {
            Some((y, m)) => match r {
                Ok(q) => 1970 <= y <= 2100 && 1 <= m <= 12 && q.sql@ == timeline_sql(true, viewer.role@ == "ADMIN"@)
                    && binds_view(q.binds@) == if viewer.role@ == "ADMIN"@ {
                        seq![SqlValueView::Int(month_start(y, m)), SqlValueView::Int(if m == 12 { month_start(y + 1, 1) } else { month_start(y, m + 1) })]
                    } else {
                        seq![SqlValueView::Int(month_start(y, m)), SqlValueView::Int(if m == 12 { month_start(y + 1, 1) } else { month_start(y, m + 1) }), SqlValueView::Int(viewer.id as int)]
                    },
                Err(e) => !(1970 <= y <= 2100 && 1 <= m <= 12) && is_error(e, 400, "Invalid calendar month"@),
            },
            None => match r {
                Ok(q) => q.sql@ == timeline_sql(false, viewer.role@ == "ADMIN"@) && binds_view(q.binds@) == if viewer.role@ == "ADMIN"@ {
                    Seq::<SqlValueView>::empty()
                } else {
                    seq![SqlValueView::Int(viewer.id as int)]
                },
                Err(_) => false,
            },
        },
{
    let admin = str_eq(viewer.role.as_str(), "ADMIN");
    let parsed_year = match &year {
        Some(y) => parse_i32(y.as_str()),
        None => None,
    };
    let parsed_month = match &month {
        Some(m) => parse_u32(&chars_of(m.as_str())),
        None => None,
    };
    let mut binds: Vec<SqlValue> = Vec::new();
    match (parsed_year, parsed_month) {
        (Some(y), Some(m)) => {
            let (start, end) = calendar_month_bounds(y, m)?;
            binds.push(SqlValue::Int(start));
            binds.push(SqlValue::Int(end));
            if !admin {
                binds.push(SqlValue::Int(viewer.id));
            }
            let sql = if admin {
                "SELECT date(created_ts, 'unixepoch') AS day, COUNT(*) AS count FROM memo WHERE row_status = 'NORMAL' AND created_ts >= ? AND created_ts < ? GROUP BY day ORDER BY day ASC"
            } else {
                "SELECT date(created_ts, 'unixepoch') AS day, COUNT(*) AS count FROM memo WHERE row_status = 'NORMAL' AND created_ts >= ? AND created_ts < ? AND (visibility != 'PRIVATE' OR creator_id = ?) GROUP BY day ORDER BY day ASC"
            };
            proof {
                assert(binds_view(binds@) =~= if admin {
                    seq![SqlValueView::Int(start as int), SqlValueView::Int(end as int)]
                } else {
                    seq![SqlValueView::Int(start as int), SqlValueView::Int(end as int), SqlValueView::Int(viewer.id as int)]
                });
            }
            Ok(TimelineQuery { sql: sql.to_owned(), binds })
        },
        _ => {
            if !admin {
                binds.push(SqlValue::Int(viewer.id));
            }
            let sql = if admin {
                "SELECT date(created_ts, 'unixepoch') AS day, COUNT(*) AS count FROM memo WHERE row_status = 'NORMAL' GROUP BY day ORDER BY day DESC LIMIT 120"
            } else {
                "SELECT date(created_ts, 'unixepoch') AS day, COUNT(*) AS count FROM memo WHERE row_status = 'NORMAL' AND (visibility != 'PRIVATE' OR creator_id = ?) GROUP BY day ORDER BY day DESC LIMIT 120"
            };
            proof {
                assert(binds_view(binds@) =~= if admin {
                    Seq::<SqlValueView>::empty()
                } else {
                    seq![SqlValueView::Int(viewer.id as int)]
                });
            }
            Ok(TimelineQuery { sql: sql.to_owned(), binds })
        },
    }
}

/// Where the public holiday service lists its data.
pub const HOLIDAY_API_BASE: &'static str = "https://date.nager.at/api/v3";

/// A holiday lookup: the year asked for when it is a number from 1970 to 2100,
/// else the current year; the country asked for (United States when none),
/// trimmed and uppercased, which must be two capital letters (400 otherwise).
pub open spec fn holiday_year(year: Option<Seq<char>>, current_year: int) -> int {
    match year {
        Some(y) => match parse_i32_spec(y) {
            Some(n) => if 1970 <= n <= 2100 {
                n
            } else {
                current_year
            },
            None => current_year,
        },
        None => current_year,
    }
}

pub open spec fn holiday_country(country: Option<Seq<char>>) -> Seq<char> {
    ascii_upper_seq(trim(match country {
        Some(c) => c,
        None => "US"@,
    }))
}

pub fn holiday_request(year: Option<String>, country: Option<String>, current_year: i32) -> (r: Result<(i32, String), AppError>)
    ensures
        match r {
            Ok((y, c)) => y == holiday_year(crate::json::opt_string(year), current_year as int)
                && c@ == holiday_country(crate::json::opt_string(country)) && country_code(c@),
            Err(e) => !country_code(holiday_country(crate::json::opt_string(country))) && is_error(e, 400, "Invalid country code"@),
        },
{
    let y = match &year {
        Some(text) => match parse_i32(text.as_str()) {
            Some(n) => if 1970 <= n && n <= 2100 {
                n
            } else {
                current_year
            },
            None => current_year,
        },
        None => current_year,
    };
    let raw = match &country {
        Some(c) => chars_of(c.as_str()),
        None => chars_of("US"),
    };
    let upper = to_ascii_upper(&trim_chars(&raw));
    let code = string_of(&upper);
    if !valid_country_code(code.as_str()) {
        return Err(AppError::new(400, "Invalid country code"));
    }
    Ok((y, code))
}

/// The holiday service address for a year and country.
pub fn holiday_url(year: i32, country: &str) -> (r: String)
    ensures
        r@ == HOLIDAY_API_BASE@ + "/PublicHolidays/"@ + int_text(year as int) + "/"@ + country@,
{
    let mut v: Vec<char> = Vec::new();
    push_str(&mut v, HOLIDAY_API_BASE);
    push_str(&mut v, "/PublicHolidays/");
    push_int(&mut v, year as i128);
    push_str(&mut v, "/");
    push_str(&mut v, country);
    proof {
        assert(v@ =~= HOLIDAY_API_BASE@ + "/PublicHolidays/"@ + int_text(year as int) + "/"@ + country@);
    }
    string_of(&v)
}

} // verus!

//! The assignment of codes and severities to the kinds of an enumeration of
//! errors, from what is declared for the enumeration and for each kind.

use vstd::prelude::*;
use crate::detail::Severity;

verus! {

/// What is declared for one kind of error.
#[derive(Debug, Clone, Copy)]
pub struct KindAttr {
    /// The code of the kind, before the offset of the enumeration is added.
    pub code: Option<u32>,
    /// The severity of the kind.
    pub severity: Option<Severity>,
}

/// The code and the severity that a kind of error was given.
#[derive(Debug, Clone, Copy, PartialEq, Eq, Structural)]
pub struct DiagAttr {
    pub code: u32,
    pub severity: Severity,
}

/// Why no table could be made.
#[derive(Debug, Clone, Copy, PartialEq, Eq, Structural)]
pub enum TableError {
    /// Two kinds have the same code.
    DuplicateCode { code: u32, first: usize, second: usize },
    /// The code of a kind is greater than any `u32`.
    CodeOverflow { kind: usize },
}

/// The code of the kind of index `i`: the declared code and the offset, or
/// one more than the greatest code of the kinds before it.
pub open spec fn code_of(offset: u32, kinds: Seq<KindAttr>, i: int) -> int
    decreases i, 1int,
{
    if i < 0 {
        offset as int
    } else {
        match kinds[i].code {
            Some(n) => offset + n,
            None => greatest_before(offset, kinds, i) + 1,
        }
    }
}

/// The greatest code among the kinds before index `i`, the offset where
/// there are none.
pub open spec fn greatest_before(offset: u32, kinds: Seq<KindAttr>, i: int) -> int
    decreases i, 0int,
{
    if i <= 0 {
        offset as int
    } else {
        let before = greatest_before(offset, kinds, i - 1);
        let last = code_of(offset, kinds, i - 1);
        if last > before {
            last
        } else {
            before
        }
    }
}

/// The severity of a kind: the declared one, or that of the enumeration.
pub open spec fn severity_of(default: Severity, kind: KindAttr) -> Severity {
    match kind.severity {
        Some(s) => s,
        None => default,
    }
}

/// Whether the codes of the kinds before index `n` are all `u32`.
pub open spec fn codes_fit(offset: u32, kinds: Seq<KindAttr>, n: int) -> bool {
    forall|i: int| 0 <= i < n ==> #[trigger] code_of(offset, kinds, i) <= u32::MAX
}

/// Whether no kind before index `n` has the code of a kind after it.
pub open spec fn codes_distinct(offset: u32, kinds: Seq<KindAttr>, n: int) -> bool {
    forall|i: int, j: int|
        0 <= i < n && i < j < kinds.len() ==> #[trigger] code_of(offset, kinds, i) != #[trigger] code_of(
            offset,
            kinds,
            j,
        )
}

/// Whether the table gives each kind its code and its severity.
pub open spec fn is_table(table: Seq<DiagAttr>, offset: u32, default: Severity, kinds: Seq<KindAttr>) -> bool {
    &&& table.len() == kinds.len()
    &&& forall|i: int|
        0 <= i < kinds.len() ==> (#[trigger] table[i]).code == code_of(offset, kinds, i) && table[i].severity
            == severity_of(default, kinds[i])
}

/// The table of the codes and severities of the kinds of an enumeration.
/// The code of a kind is the declared one and the offset of the
/// enumeration; a kind without a declared code gets one more than the
/// greatest code of the kinds before it, the first kind one more than the
/// offset. No table is made where a code is too great, or where two kinds
/// have the same code: the error names the first kind of which that holds.
pub fn assign(offset: u32, default: Severity, kinds: &Vec<KindAttr>) -> (r: Result<Vec<DiagAttr>, TableError>)
    ensures
        match r {
            Ok(table) => {
                &&& codes_fit(offset, kinds@, kinds@.len() as int)
                &&& codes_distinct(offset, kinds@, kinds@.len() as int)
                &&& is_table(table@, offset, default, kinds@)
            },
            Err(TableError::CodeOverflow { kind }) => {
                &&& kind < kinds@.len()
                &&& codes_fit(offset, kinds@, kind as int)
                &&& code_of(offset, kinds@, kind as int) > u32::MAX
            },
            Err(TableError::DuplicateCode { code, first, second }) => {
                &&& codes_fit(offset, kinds@, kinds@.len() as int)
                &&& first < second < kinds@.len()
                &&& codes_distinct(offset, kinds@, first as int)
                &&& code == code_of(offset, kinds@, first as int)
                &&& code == code_of(offset, kinds@, second as int)
                &&& forall|j: int| first < j < second ==> #[trigger] code_of(offset, kinds@, j) != code
            },
        },
{
    let n = kinds.len();
    let mut table: Vec<DiagAttr> = Vec::new();
    let mut greatest: u32 = offset;
    let mut i: usize = 0;
    while i < n
        invariant
            i <= n,
            n == kinds@.len(),
            table@.len() == i,
            codes_fit(offset, kinds@, i as int),
            greatest == greatest_before(offset, kinds@, i as int),
            forall|k: int|
                0 <= k < i ==> (#[trigger] table@[k]).code == code_of(offset, kinds@, k) && table@[k].severity
                    == severity_of(default, kinds@[k]),
        decreases n - i,
    {
        let kind = &kinds[i];
        let code = match kind.code {
            Some(c) => offset.checked_add(c),
            None => greatest.checked_add(1),
        };
        let code = match code {
            Some(c) => c,
            None => {
                return Err(TableError::CodeOverflow { kind: i });
            },
        };
        let severity = match kind.severity {
            Some(s) => s,
            None => default,
        };
        proof {
            assert(code == code_of(offset, kinds@, i as int));
            assert(greatest_before(offset, kinds@, i + 1) == if code_of(offset, kinds@, i as int) > greatest_before(
                offset,
                kinds@,
                i as int,
            ) {
                code_of(offset, kinds@, i as int)
            } else {
                greatest_before(offset, kinds@, i as int)
            });
        }
        if code > greatest {
            greatest = code;
        }
        table.push(DiagAttr { code, severity });
        i = i + 1;
    }
    let mut a: usize = 0;
    while a < n
        invariant
            a <= n,
            n == kinds@.len(),
            table@.len() == n,
            codes_fit(offset, kinds@, n as int),
            codes_distinct(offset, kinds@, a as int),
            is_table(table@, offset, default, kinds@),
        decreases n - a,
    {
        let mut b: usize = a + 1;
        while b < n
            invariant
                a < b <= n,
                n == kinds@.len(),
                table@.len() == n,
                is_table(table@, offset, default, kinds@),
                codes_fit(offset, kinds@, n as int),
                codes_distinct(offset, kinds@, a as int),
                forall|j: int|
                    a < j < b ==> #[trigger] code_of(offset, kinds@, j) != code_of(offset, kinds@, a as int),
            decreases n - b,
        {
            if table[a].code == table[b].code {
                return Err(TableError::DuplicateCode { code: table[a].code, first: a, second: b });
            }
            b = b + 1;
        }
        a = a + 1;
    }
    Ok(table)
}

} // verus!

//! The final report: a header line, then one line for each account in
//! ascending order of client identifier.

use crate::client::Client;
use crate::decimal::{amount_text, number_text, push_amount, push_number};
use crate::store::AccountStore;
use vstd::prelude::*;

verus! {

/// The line `client,available,held,total,locked`, with its line feed.
pub open spec fn header_line() -> Seq<u8> {
    seq![
        'c' as u8,
        'l' as u8,
        'i' as u8,
        'e' as u8,
        'n' as u8,
        't' as u8,
        ',' as u8,
        'a' as u8,
        'v' as u8,
        'a' as u8,
        'i' as u8,
        'l' as u8,
        'a' as u8,
        'b' as u8,
        'l' as u8,
        'e' as u8,
        ',' as u8,
        'h' as u8,
        'e' as u8,
        'l' as u8,
        'd' as u8,
        ',' as u8,
        't' as u8,
        'o' as u8,
        't' as u8,
        'a' as u8,
        'l' as u8,
        ',' as u8,
        'l' as u8,
        'o' as u8,
        'c' as u8,
        'k' as u8,
        'e' as u8,
        'd' as u8,
        '\n' as u8,
    ]
}

/// The text of a flag: `true` or `false`.
pub open spec fn flag_text(flag: bool) -> Seq<u8> {
    if flag {
        seq!['t' as u8, 'r' as u8, 'u' as u8, 'e' as u8]
    } else {
        seq!['f' as u8, 'a' as u8, 'l' as u8, 's' as u8, 'e' as u8]
    }
}

/// The report line of one account: its identifier, available, held and
/// total amounts and its lock flag, separated by commas, with a line feed.
pub open spec fn account_line(account: Client) -> Seq<u8> {
    number_text(account.id as nat) + seq![',' as u8] + amount_text(account.available as int)
        + seq![',' as u8] + amount_text(account.held as int) + seq![',' as u8] + amount_text(
        account.total as int,
    ) + seq![',' as u8] + flag_text(account.locked) + seq!['\n' as u8]
}

/// The lines of the accounts whose client identifier is below `n`, in
/// ascending order of identifier.
pub open spec fn account_lines(accounts: Map<u16, Client>, n: nat) -> Seq<u8>
    decreases n,
{
    if n == 0 {
        Seq::empty()
    } else {
        let id = (n - 1) as u16;
        account_lines(accounts, (n - 1) as nat) + if accounts.contains_key(id) {
            account_line(accounts[id])
        } else {
            Seq::empty()
        }
    }
}

/// The whole report: the header line, then the line of every account.
pub open spec fn report_text(accounts: Map<u16, Client>) -> Seq<u8> {
    header_line() + account_lines(accounts, 65536)
}

/// Appends the bytes of `text` to `out`.
pub fn push_bytes(out: &mut Vec<u8>, text: &[u8])
    ensures
        final(out)@ == old(out)@ + text@,
{
    let mut i: usize = 0;
    while i < text.len()
        invariant
            i <= text.len(),
            out@ == old(out)@ + text@.take(i as int),
        decreases text.len() - i,
    {
        out.push(text[i]);
        assert(text@.take(i + 1) =~= text@.take(i as int).push(text@[i as int]));
        i += 1;
    }
    assert(text@.take(i as int) =~= text@);
}

/// Appends the report line of `account` to `out`.
pub fn push_account_line(out: &mut Vec<u8>, account: &Client)
    ensures
        final(out)@ == old(out)@ + account_line(*account),
{
    let yes = ['t' as u8, 'r' as u8, 'u' as u8, 'e' as u8];
    let no = ['f' as u8, 'a' as u8, 'l' as u8, 's' as u8, 'e' as u8];
    assert(yes@ =~= flag_text(true));
    assert(no@ =~= flag_text(false));
    push_number(out, account.id as u64);
    out.push(',' as u8);
    push_amount(out, account.available);
    out.push(',' as u8);
    push_amount(out, account.held);
    out.push(',' as u8);
    push_amount(out, account.total);
    out.push(',' as u8);
    if account.locked {
        push_bytes(out, &yes);
    } else {
        push_bytes(out, &no);
    }
    out.push('\n' as u8);
    assert(out@ =~= old(out)@ + account_line(*account));
}

/// Writes the report of the accounts in `store`.
pub fn render_report(store: &AccountStore) -> (report: Vec<u8>)
    ensures
        report@ == report_text(store@),
{
    let header = [
        'c' as u8,
        'l' as u8,
        'i' as u8,
        'e' as u8,
        'n' as u8,
        't' as u8,
        ',' as u8,
        'a' as u8,
        'v' as u8,
        'a' as u8,
        'i' as u8,
        'l' as u8,
        'a' as u8,
        'b' as u8,
        'l' as u8,
        'e' as u8,
        ',' as u8,
        'h' as u8,
        'e' as u8,
        'l' as u8,
        'd' as u8,
        ',' as u8,
        't' as u8,
        'o' as u8,
        't' as u8,
        'a' as u8,
        'l' as u8,
        ',' as u8,
        'l' as u8,
        'o' as u8,
        'c' as u8,
        'k' as u8,
        'e' as u8,
        'd' as u8,
        '\n' as u8,
    ];
    assert(header@ =~= header_line());
    let mut report: Vec<u8> = Vec::new();
    push_bytes(&mut report, &header);
    let mut n: u32 = 0;
    while n < 65536
        invariant
            n <= 65536,
            report@ == header_line() + account_lines(store@, n as nat),
        decreases 65536 - n,
    {
        match store.get(n as u16) {
            Some(account) => {
                push_account_line(&mut report, &account);
            },
            None => {},
        }
        assert(report@ =~= header_line() + account_lines(store@, (n + 1) as nat));
        n += 1;
    }
    report
}

} // verus!

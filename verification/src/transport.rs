use vstd::prelude::*;
use vstd::arithmetic::div_mod::lemma_fundamental_div_mod_converse;
use crate::cell::Cell;
use crate::game_of_life::SubscribeMessage;

verus! {

/// A message bound for a remote client. Serialization itself lives at the
/// transport boundary; this type only fixes what each message carries.
#[derive(Debug)]
pub enum ClientSubscriptionMessage {
    Subscribe,
    MessageFromServer { cells: Vec<Cell>, generation_index: i32 },
    StartSim,
    NoMessage,
}

/// Turns an actor notification into its client-bound form: an OnChange
/// becomes a MessageFromServer carrying exactly the same cells and
/// generation index; every other notification carries nothing for the
/// client.
pub fn parse_gol_subscription_message(message: SubscribeMessage) -> (r: ClientSubscriptionMessage)
    ensures
        match message {
            SubscribeMessage::OnChange { cells, generation_index } => r
                matches ClientSubscriptionMessage::MessageFromServer {
                cells: out_cells,
                generation_index: out_index,
            } && out_cells@ == cells@ && out_index == generation_index,
            _ => r matches ClientSubscriptionMessage::NoMessage,
        },
{
    match message {
        SubscribeMessage::OnChange { cells, generation_index } => {
            let mut out_cells: Vec<Cell> = Vec::new();
            let n: usize = cells.len();
            let mut i: usize = 0;
            while i < n
                invariant
                    i <= n,
                    n == cells@.len(),
                    out_cells@ == cells@.take(i as int),
                decreases n - i,
            {
                let cell = cells[i];
                if Cell::is_alive(&cell) {
                    out_cells.push(Cell::birth(&cell));
                } else {
                    out_cells.push(Cell::kill(&cell));
                }
                proof {
                    assert(out_cells@ =~= cells@.take(i as int + 1));
                }
                i = i + 1;
            }
            proof {
                assert(out_cells@ =~= cells@);
            }
            ClientSubscriptionMessage::MessageFromServer { cells: out_cells, generation_index }
        },
        _ => ClientSubscriptionMessage::NoMessage,
    }
}

/// Splits a cell list into client-sized batches: every batch but possibly
/// the last holds exactly `batch_size` cells, and the batches concatenate
/// back to the input in order, so per-message payload size stays bounded.
pub fn chunk_cells(cells: &Vec<Cell>, batch_size: usize) -> (batches: Vec<Vec<Cell>>)
    requires
        batch_size > 0,
    ensures
        batches@.len() == (cells@.len() + batch_size as int - 1) / (batch_size as int),
        forall|b: int|
            0 <= b < batches@.len() ==> {
                let start = b * (batch_size as int);
                let end = if start + batch_size as int <= cells@.len() {
                    start + batch_size as int
                } else {
                    cells@.len() as int
                };
                (#[trigger] batches@[b])@ == cells@.subrange(start, end)
            },
{
    let n: usize = cells.len();
    let bs: usize = batch_size;
    let mut batches: Vec<Vec<Cell>> = Vec::new();
    let mut i: usize = 0;
    proof {
        assert(batches@.len() * (bs as int) == 0) by (nonlinear_arith)
            requires
                batches@.len() == 0,
        ;
    }
    while i < n
        invariant
            bs == batch_size,
            bs > 0,
            i <= n,
            n == cells@.len(),
            i == batches@.len() * (bs as int) || (i == n && batches@.len() == (cells@.len()
                + bs as int - 1) / (bs as int)),
            forall|b: int|
                0 <= b < batches@.len() ==> {
                    let start = b * (bs as int);
                    let end = if start + bs as int <= cells@.len() {
                        start + bs as int
                    } else {
                        cells@.len() as int
                    };
                    (#[trigger] batches@[b])@ == cells@.subrange(start, end)
                },
        decreases n - i,
    {
        let take: usize = if n - i < bs {
            n - i
        } else {
            bs
        };
        let mut batch: Vec<Cell> = Vec::new();
        let mut k: usize = 0;
        while k < take
            invariant
                k <= take,
                i + take <= n,
                n == cells@.len(),
                batch@ == cells@.subrange(i as int, i as int + k as int),
            decreases take - k,
        {
            batch.push(cells[i + k]);
            proof {
                assert(batch@ =~= cells@.subrange(i as int, i as int + k as int + 1));
            }
            k = k + 1;
        }
        let ghost prev_len = batches@.len() as int;
        batches.push(batch);
        proof {
            assert((prev_len + 1) * (bs as int) == prev_len * (bs as int) + bs as int)
                by (nonlinear_arith);
        }
        i = i + take;
        if take < bs {
            // the final, partial batch: the loop ends here with i == n
            proof {
                lemma_fundamental_div_mod_converse(
                    n as int + bs as int - 1,
                    bs as int,
                    prev_len + 1,
                    take as int - 1,
                );
                assert(batches@.len() == (cells@.len() + bs as int - 1) / (bs as int));
            }
        }
    }
    proof {
        if n as int == batches@.len() * (bs as int) {
            lemma_fundamental_div_mod_converse(
                n as int + bs as int - 1,
                bs as int,
                batches@.len() as int,
                bs as int - 1,
            );
        }
    }
    batches
}

} // verus!

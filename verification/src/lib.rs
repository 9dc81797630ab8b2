//! Conformance scenarios for vhost-user-blk backends.
//!
//! The library plays a correct frontend. It decides what to send and store, and judges
//! what comes back; it opens no socket and maps no memory. A scenario runs over the
//! answers gathered so far and leaves a log of actions. A driver performs the new ones,
//! adds the answer to the last, and runs the scenario again until it has a verdict.
//!
//! * `link`, `mem`: the conversation with the outside, and the shared memory in it;
//! * `features`, `dev`, `ring`, `blk`: sessions, the ring, and requests;
//! * `model`: what the operations of a session do, in terms of plain values;
//! * `checks`, `bench`, `trial`, `stages`: the steps that scenarios are made of;
//! * `t_data`, `t_precision`, `t_proto`, `t_robust`, `registry`: the scenarios;
//! * `words`, `cli`, `report`: command line and report;
//! * `replay`, `turns`, `verdicts`, `guest`, `wire`, `laws`, `audit`, `bounds`, `spared`,
//!   `orders`: what holds of all this;
//! * `account`, `deeds`, `passing`: what a run did, in terms of actions and answers alone;
//! * `pass_data`, `pass_layout`, `pass_flight`, `pass_proto`, `pass_robust`: what a pass of
//!   each scenario means;
//! * `terms`, `fair`, `opening`, `says`, `names`: when a scenario is skipped, what a device may
//!   do, what it takes to open a session, and what is said and by which names.

pub mod text;
pub mod le;
pub mod link;
pub mod mem;
pub mod features;
pub mod dev;
pub mod model;
pub mod ring;
pub mod blk;
pub mod checks;
pub mod bench;
pub mod trial;
pub mod stages;
pub mod t_data;
pub mod t_precision;
pub mod t_proto;
pub mod t_robust;
pub mod registry;
pub mod words;
pub mod cli;
pub mod report;
pub mod replay;
pub mod turns;
pub mod verdicts;
pub mod guest;
pub mod wire;
pub mod spared;
pub mod laws;
pub mod audit;
pub mod bounds;
pub mod orders;
pub mod account;
pub mod deeds;
pub mod passing;
pub mod pass_data;
pub mod pass_layout;
pub mod pass_flight;
pub mod pass_proto;
pub mod pass_robust;
pub mod terms;
pub mod fair;
pub mod opening;
pub mod says;
pub mod names;

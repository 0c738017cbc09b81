# rdmatop

A terminal monitor of network throughput (`htop` for RDMA traffic), split in
two:

- `src/` — the library, verified with Verus:
  - `wire`: unsigned integers in little- or big-endian byte order, and the
    host's own order;
  - `netlink`: netlink message and attribute framing (parse and build), with
    the law that a built message reads back as itself;
  - `net`: the `RTM_GETLINK` dump request, reading interface names and
    `rtnl_link_stats64` counters out of the replies, ending a dump on
    `NLMSG_DONE`/`NLMSG_ERROR`, and the byte totals between two snapshots;
  - `text`: decimal numbers, memory sizes with one decimal exactly as
    floating-point formatting prints them, and shortening strings;
  - `events`: what each key does in each view;
  - `layout`: help popup placement (through ratatui's `Rect::new`) and the
    detail panel's scroll limit;
  - `style`: theme roles of process states and hardware counters.
- `app/` — the program: netlink socket I/O, the terminal loop, drawing with
  ratatui, and the floating-point rates.
- `tests/` — tests of the library on concrete values.

# tkone_schedule

Recurrence schedules written as small spec strings, verified with Verus.

- A **date spec** `<years>-<months>-<days>[~<adjustment>]` (`YY-1M-31L~NB`)
  picks calendar days, with business-day adjustment.
- A **time spec** `<hours>:<minutes>:<seconds>` (`HH:30M:00`) picks times of
  day.
- A **date-time spec** `<date spec>T<time spec>` combines the two.

Each spec has an iterator: a local one over a proleptic Gregorian calendar,
and one in a named time zone under a daylight-saving policy.

## Layout

- `src/` is the verified library. `calendar` models dates as day numbers
  and seconds of the day; `date`, `time` and `datetime` hold the spec
  grammars (as spec functions over bytes), their parsers and printers, the
  iterators and their builders; `biz_day` the business-day processors;
  `zone` the mapping to time zones; `trigger` the scheduler's decisions.
  Calls into chrono and chrono-tz stand behind small trusted wrappers whose
  contracts say what those calls return.
- `tests/` runs the library on concrete schedules.
- `app/` is the tokio scheduler that reads the clock and fires callbacks.
